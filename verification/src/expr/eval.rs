//! The value of a `${{ }}` expression. What the evaluation needs from the host, it looks up
//! in the facts the host has supplied: whether a text is a number literal, how two operands
//! compare as numbers (both are floating-point values to the host), and the `hashFiles`
//! digest of a list of patterns. When a fact is missing, the evaluation names it instead of a
//! value, and the host supplies it and evaluates again.
use crate::expr::{
    context_ref_spec, function_args, function_call, is_quoted, is_truthy, lemma_outer_parens_len,
    lemma_split_top_shorter, lemma_trim_len, operator_at, outer_parens, parse_function_call,
    quoted, resolve_context_ref, split_function_args, split_top, split_top_level, strip_outer_parens,
    truthy, ExpressionContext, ZERO_SHA,
};
use crate::expr::template::{part_view, parts_view, split_expression_template, template_from, TemplatePart};
use crate::strmap::{compare_str, seq_lt, text_map, StrMap};
use crate::text::{
    chars_of, contains, contains_seq, decimal, ends_with, is_prefix, is_suffix, join, join_strings,
    owned, replace_all, replace_str, slice_string, starts_with, str_eq, trim, trim_str,
    usize_to_string, views,
};
use vstd::prelude::*;

verus! {

// ---------------------------------------------------------------------------
// Outside computations on text
// ---------------------------------------------------------------------------

/// What `str::to_lowercase` makes of a text (Unicode lowercase mapping).
pub uninterp spec fn lowercase(s: Seq<char>) -> Seq<char>;

/// Lowercases with `str::to_lowercase`; the contract names the result as a function of the text.
#[verifier::external_body]
fn lowercase_of(s: &str) -> (r: String)
    ensures
        r@ == lowercase(s@),
{
    s.to_lowercase()
}

/// The items of a JSON array text as serde_json reads it, each as its string value, nothing
/// for null, and its compact JSON for anything else; `None` when the text is not a JSON array.
pub uninterp spec fn json_array_texts(s: Seq<char>) -> Option<Seq<Seq<char>>>;

/// Parses `s` with `serde_json::from_str` into a `serde_json::Value`; for an array, gives each
/// item's text (a string's content, empty for null, else the item's `Display`, its compact
/// JSON). The contract names the result as a function of the text.
#[verifier::external_body]
fn json_array_texts_of(s: &str) -> (r: Option<Vec<String>>)
    ensures
        match r {
            Some(v) => json_array_texts(s@) == Some(views(v@)),
            None => json_array_texts(s@) is None,
        },
{
    match serde_json::from_str::<serde_json::Value>(s) {
        Ok(serde_json::Value::Array(items)) => Some(
            items.iter().map(|item| match item {
                serde_json::Value::Null => String::new(),
                serde_json::Value::String(text) => text.clone(),
                other => other.to_string(),
            }).collect(),
        ),
        _ => None,
    }
}

/// What `fromJSON` makes of a text, by serde_json: a JSON string's content, the compact JSON of
/// any other value, and empty for text that is not JSON.
pub uninterp spec fn json_from_text(s: Seq<char>) -> Seq<char>;

/// Parses `s` with `serde_json::from_str`; a string value gives its content, another value its
/// `serde_json::to_string`, a parse error the empty text. The contract names the result.
#[verifier::external_body]
fn json_from_text_of(s: &str) -> (r: String)
    ensures
        r@ == json_from_text(s@),
{
    match serde_json::from_str::<serde_json::Value>(s) {
        Ok(serde_json::Value::String(text)) => text,
        Ok(other) => serde_json::to_string(&other).unwrap_or_default(),
        Err(_) => String::new(),
    }
}

/// What `toJSON` makes of a text, by serde_json: the pretty JSON of the value it parses to, or
/// of the text itself as a JSON string when it does not parse.
pub uninterp spec fn json_pretty_text(s: Seq<char>) -> Seq<char>;

/// Parses `s` with `serde_json::from_str` and writes the value with
/// `serde_json::to_string_pretty`; text that does not parse is written as a JSON string. The
/// contract names the result.
#[verifier::external_body]
fn json_pretty_text_of(s: &str) -> (r: String)
    ensures
        r@ == json_pretty_text(s@),
{
    match serde_json::from_str::<serde_json::Value>(s) {
        Ok(value) => serde_json::to_string_pretty(&value).unwrap_or_default(),
        Err(_) => serde_json::to_string_pretty(s).unwrap_or_default(),
    }
}

// ---------------------------------------------------------------------------
// Facts from the host
// ---------------------------------------------------------------------------

/// How two operands compare as numbers: not both numbers, or the outcome of `<`, `==` and `>`
/// on their values (all false when one is not a number value).
#[derive(Debug, Clone, Copy, PartialEq, Eq, Structural)]
pub enum NumberRelation {
    NotNumbers,
    Ordered { less: bool, equal: bool, greater: bool },
}

/// What the host has told the evaluation so far.
#[derive(Debug, Clone)]
pub struct EvalFacts {
    /// Texts, each with whether it reads as a number literal.
    pub literals: Vec<(String, bool)>,
    /// Operand pairs, each with how they compare as numbers.
    pub comparisons: Vec<(String, String, NumberRelation)>,
    /// Pattern lists, each with the `hashFiles` digest of the files they select.
    pub digests: Vec<(Vec<String>, String)>,
}

/// A fact the evaluation needs from the host.
#[derive(Debug, Clone, PartialEq, Eq)]
pub enum EvalQuery {
    IsNumber(String),
    Compare(String, String),
    HashFiles(Vec<String>),
}

/// The mathematical form of a query.
pub enum QueryView {
    IsNumber(Seq<char>),
    Compare(Seq<char>, Seq<char>),
    HashFiles(Seq<Seq<char>>),
}

pub open spec fn query_view(q: EvalQuery) -> QueryView {
    match q {
        EvalQuery::IsNumber(t) => QueryView::IsNumber(t@),
        EvalQuery::Compare(a, b) => QueryView::Compare(a@, b@),
        EvalQuery::HashFiles(p) => QueryView::HashFiles(views(p@)),
    }
}

pub open spec fn eval_result_view(r: Result<String, EvalQuery>) -> Result<Seq<char>, QueryView> {
    match r {
        Ok(v) => Ok(v@),
        Err(q) => Err(query_view(q)),
    }
}

/// The last answer about a literal.
pub open spec fn literal_fact(ls: Seq<(String, bool)>, t: Seq<char>) -> Option<bool>
    decreases ls.len(),
{
    if ls.len() == 0 {
        None
    } else if ls.last().0@ == t {
        Some(ls.last().1)
    } else {
        literal_fact(ls.drop_last(), t)
    }
}

/// The last answer about a pair of operands.
pub open spec fn comparison_fact(cs: Seq<(String, String, NumberRelation)>, a: Seq<char>, b: Seq<char>) -> Option<NumberRelation>
    decreases cs.len(),
{
    if cs.len() == 0 {
        None
    } else if cs.last().0@ == a && cs.last().1@ == b {
        Some(cs.last().2)
    } else {
        comparison_fact(cs.drop_last(), a, b)
    }
}

/// The last answer about a pattern list.
pub open spec fn digest_fact(ds: Seq<(Vec<String>, String)>, p: Seq<Seq<char>>) -> Option<Seq<char>>
    decreases ds.len(),
{
    if ds.len() == 0 {
        None
    } else if views(ds.last().0@) == p {
        Some(ds.last().1@)
    } else {
        digest_fact(ds.drop_last(), p)
    }
}

// ---------------------------------------------------------------------------
// The evaluation
// ---------------------------------------------------------------------------

pub open spec fn bool_text(b: bool) -> Seq<char> {
    if b {
        "true"@
    } else {
        "false"@
    }
}

/// A quoted literal without its quotes (empty for a lone quote character).
pub open spec fn unquoted(t: Seq<char>) -> Seq<char> {
    if quoted(t) {
        if t.len() >= 2 {
            t.subrange(1, t.len() - 1)
        } else {
            Seq::empty()
        }
    } else {
        t
    }
}

/// The comparison operator tried `k`-th: `!=`, `==`, `<=`, `>=`, `<`, `>`.
pub open spec fn comparison_op(k: int) -> Seq<char> {
    operator_at(k + 2)
}

/// The first comparison operator, from the `k`-th on, that splits `t` into exactly two pieces.
pub open spec fn comparison_split(t: Seq<char>, k: int) -> Option<(int, Seq<Seq<char>>)>
    decreases 6 - k,
{
    if k >= 6 || k < 0 {
        None
    } else {
        let p = split_top(t, comparison_op(k));
        if p.len() == 2 {
            Some((k, p))
        } else {
            comparison_split(t, k + 1)
        }
    }
}

/// The outcome of comparison operator `k` on two operands: by their number relation when both
/// are numbers, else on their lowercased texts in character order.
pub open spec fn compared(k: int, a: Seq<char>, b: Seq<char>, rel: NumberRelation) -> bool {
    match rel {
        NumberRelation::Ordered { less, equal, greater } => if k == 0 {
            !equal
        } else if k == 1 {
            equal
        } else if k == 2 {
            less || equal
        } else if k == 3 {
            greater || equal
        } else if k == 4 {
            less
        } else {
            greater
        },
        NumberRelation::NotNumbers => {
            let x = lowercase(a);
            let y = lowercase(b);
            if k == 0 {
                x != y
            } else if k == 1 {
                x == y
            } else if k == 2 {
                !seq_lt(y, x)
            } else if k == 3 {
                !seq_lt(x, y)
            } else if k == 4 {
                seq_lt(x, y)
            } else {
                seq_lt(y, x)
            }
        },
    }
}

/// The fixed words and status functions: `true`, `false`, `null`, `success()` and `failure()`
/// (read from the `__all_success` and `__any_failure` env entries), `always()`, `cancelled()`.
pub open spec fn keyword_value(t: Seq<char>, c: ExpressionContext) -> Option<Seq<char>> {
    let env = text_map(c.env);
    if t == "true"@ {
        Some("true"@)
    } else if t == "false"@ {
        Some("false"@)
    } else if t == "null"@ {
        Some(Seq::empty())
    } else if t == "success()"@ {
        Some(if env.contains_key("__all_success"@) { env["__all_success"@] } else { "true"@ })
    } else if t == "failure()"@ {
        Some(if env.contains_key("__any_failure"@) { env["__any_failure"@] } else { "false"@ })
    } else if t == "always()"@ {
        Some("true"@)
    } else if t == "cancelled()"@ {
        Some("false"@)
    } else {
        None
    }
}

/// Some lowercased item equals the needle.
pub open spec fn any_item_is(items: Seq<Seq<char>>, needle: Seq<char>) -> bool {
    exists|i: int| 0 <= i < items.len() && lowercase(#[trigger] items[i]) == needle
}

/// `format`: each `{i}` of the template replaced by value `i`, in order.
pub open spec fn formatted(template: Seq<char>, values: Seq<Seq<char>>) -> Seq<char>
    decreases values.len(),
{
    if values.len() == 0 {
        template
    } else {
        replace_all(
            formatted(template, values.drop_last()),
            "{"@ + decimal((values.len() - 1) as nat) + "}"@,
            values.last(),
        )
    }
}

/// A built-in function applied to its raw arguments `args`, their values `vals`, and the value
/// `whole` of the raw argument text (for `fromJSON` and `toJSON`); unknown functions give the
/// empty text.
pub open spec fn apply_function(name: Seq<char>, args: Seq<Seq<char>>, vals: Seq<Seq<char>>, whole: Seq<char>, c: ExpressionContext, f: EvalFacts) -> Result<Seq<char>, QueryView> {
    if name == "contains"@ {
        if args.len() < 2 {
            Ok("false"@)
        } else {
            let needle = lowercase(vals[1]);
            match json_array_texts(vals[0]) {
                Some(items) => Ok(bool_text(any_item_is(items, needle))),
                None => Ok(bool_text(contains_seq(lowercase(vals[0]), needle))),
            }
        }
    } else if name == "startsWith"@ {
        if args.len() < 2 {
            Ok("false"@)
        } else {
            Ok(bool_text(is_prefix(lowercase(vals[1]), lowercase(vals[0]))))
        }
    } else if name == "endsWith"@ {
        if args.len() < 2 {
            Ok("false"@)
        } else {
            Ok(bool_text(is_suffix(lowercase(vals[1]), lowercase(vals[0]))))
        }
    } else if name == "fromJSON"@ {
        Ok(json_from_text(whole))
    } else if name == "toJSON"@ {
        Ok(json_pretty_text(whole))
    } else if name == "format"@ {
        let template = if args.len() > 0 { unquoted(args[0]) } else { Seq::empty() };
        Ok(formatted(template, if vals.len() > 0 { vals.skip(1) } else { Seq::empty() }))
    } else if name == "join"@ {
        let value = if args.len() > 0 { vals[0] } else { Seq::empty() };
        let sep = if args.len() > 1 { vals[1] } else { ", "@ };
        match json_array_texts(value) {
            Some(items) => Ok(join(items, sep)),
            None => Ok(value),
        }
    } else if name == "hashFiles"@ {
        match c.repo_path {
            None => Ok(ZERO_SHA@),
            Some(_) => match digest_fact(f.digests@, vals) {
                Some(d) => Ok(d),
                None => Err(QueryView::HashFiles(vals)),
            },
        }
    } else {
        Ok(Seq::empty())
    }
}

/// The value of an expression: trimmed; empty for nothing; the inside of enclosing
/// parentheses; the first truthy piece of an `||` (else the last piece); the first falsy piece
/// of an `&&` (else the last); the first comparison operator that splits it in two; `!` of a
/// value; a quoted literal; a fixed word or status function; a number literal as written; a
/// built-in function; else a context reference (empty when unknown).
pub open spec fn expr_value(e: Seq<char>, c: ExpressionContext, f: EvalFacts) -> Result<Seq<char>, QueryView>
    decreases e.len() + 1, 0int,
{
    let t = trim(e);
    if t.len() == 0 {
        Ok(Seq::empty())
    } else {
        match outer_parens(t) {
            Some(inner) => if inner.len() < e.len() { expr_value(inner, c, f) } else { Ok(Seq::empty()) },
            None => {
                let or_parts = split_top(t, "||"@);
                let and_parts = split_top(t, "&&"@);
                if or_parts.len() > 1 {
                    or_chain(or_parts, e.len() as int, c, f, Seq::empty())
                } else if and_parts.len() > 1 {
                    and_chain(and_parts, e.len() as int, c, f, Seq::empty())
                } else {
                    match comparison_split(t, 0) {
                        Some((k, p)) => if p[0].len() < e.len() && p[1].len() < e.len() {
                            match expr_value(p[0], c, f) {
                                Err(q) => Err(q),
                                Ok(a) => match expr_value(p[1], c, f) {
                                    Err(q) => Err(q),
                                    Ok(b) => match comparison_fact(f.comparisons@, a, b) {
                                        None => Err(QueryView::Compare(a, b)),
                                        Some(rel) => Ok(bool_text(compared(k, a, b, rel))),
                                    },
                                },
                            }
                        } else {
                            Ok(Seq::empty())
                        },
                        None => if t[0] == '!' {
                            if t.len() - 1 < e.len() {
                                match expr_value(t.skip(1), c, f) {
                                    Err(q) => Err(q),
                                    Ok(v) => Ok(bool_text(!truthy(v))),
                                }
                            } else {
                                Ok(Seq::empty())
                            }
                        } else if quoted(t) {
                            Ok(unquoted(t))
                        } else {
                            match keyword_value(t, c) {
                                Some(v) => Ok(v),
                                None => match literal_fact(f.literals@, t) {
                                    None => Err(QueryView::IsNumber(t)),
                                    Some(true) => Ok(t),
                                    Some(false) => match function_call(t) {
                                        Some(call) => if call.1.len() < e.len() {
                                            match value_list(function_args(call.1), e.len() as int, c, f) {
                                                Err(q) => Err(q),
                                                Ok(vals) => if call.0 == "fromJSON"@ || call.0 == "toJSON"@ {
                                                    let raw = trim(call.1);
                                                    if quoted(raw) {
                                                        apply_function(call.0, function_args(call.1), vals, unquoted(raw), c, f)
                                                    } else {
                                                        match expr_value(call.1, c, f) {
                                                            Err(q) => Err(q),
                                                            Ok(w) => apply_function(call.0, function_args(call.1), vals, w, c, f),
                                                        }
                                                    }
                                                } else {
                                                    apply_function(call.0, function_args(call.1), vals, Seq::empty(), c, f)
                                                },
                                            }
                                        } else {
                                            Ok(Seq::empty())
                                        },
                                        None => match context_ref_spec(t, c) {
                                            Some(v) => Ok(v),
                                            None => Ok(Seq::empty()),
                                        },
                                    },
                                },
                            }
                        },
                    }
                }
            },
        }
    }
}

/// An `||` chain: the first truthy value, else the last value (`last` so far).
pub open spec fn or_chain(parts: Seq<Seq<char>>, bound: int, c: ExpressionContext, f: EvalFacts, last: Seq<char>) -> Result<Seq<char>, QueryView>
    decreases bound, parts.len(),
{
    if parts.len() == 0 {
        Ok(last)
    } else if parts[0].len() < bound {
        match expr_value(parts[0], c, f) {
            Err(q) => Err(q),
            Ok(v) => if truthy(v) { Ok(v) } else { or_chain(parts.skip(1), bound, c, f, v) },
        }
    } else {
        Ok(last)
    }
}

/// An `&&` chain: the first falsy value, else the last value (`last` so far).
pub open spec fn and_chain(parts: Seq<Seq<char>>, bound: int, c: ExpressionContext, f: EvalFacts, last: Seq<char>) -> Result<Seq<char>, QueryView>
    decreases bound, parts.len(),
{
    if parts.len() == 0 {
        Ok(last)
    } else if parts[0].len() < bound {
        match expr_value(parts[0], c, f) {
            Err(q) => Err(q),
            Ok(v) => if !truthy(v) { Ok(v) } else { and_chain(parts.skip(1), bound, c, f, v) },
        }
    } else {
        Ok(last)
    }
}

/// The values of some expressions, in order.
pub open spec fn value_list(parts: Seq<Seq<char>>, bound: int, c: ExpressionContext, f: EvalFacts) -> Result<Seq<Seq<char>>, QueryView>
    decreases bound, parts.len(),
{
    if parts.len() == 0 {
        Ok(Seq::empty())
    } else if parts[0].len() < bound {
        match expr_value(parts[0], c, f) {
            Err(q) => Err(q),
            Ok(v) => match value_list(parts.skip(1), bound, c, f) {
                Err(q) => Err(q),
                Ok(rest) => Ok(seq![v] + rest),
            },
        }
    } else {
        Ok(Seq::empty())
    }
}

// ---------------------------------------------------------------------------
// Carrying it out
// ---------------------------------------------------------------------------

fn literal_lookup(ls: &Vec<(String, bool)>, t: &str) -> (r: Option<bool>)
    ensures
        r == literal_fact(ls@, t@),
{
    let mut i: usize = ls.len();
    assert(ls@.take(ls@.len() as int) =~= ls@);
    while i > 0
        invariant
            i <= ls@.len(),
            literal_fact(ls@, t@) == literal_fact(ls@.take(i as int), t@),
        decreases i,
    {
        let ghost pre = ls@.take(i as int);
        assert(pre.drop_last() =~= ls@.take(i - 1));
        if str_eq(ls[i - 1].0.as_str(), t) {
            return Some(ls[i - 1].1);
        }
        i -= 1;
    }
    None
}

fn comparison_lookup(cs: &Vec<(String, String, NumberRelation)>, a: &str, b: &str) -> (r: Option<NumberRelation>)
    ensures
        r == comparison_fact(cs@, a@, b@),
{
    let mut i: usize = cs.len();
    assert(cs@.take(cs@.len() as int) =~= cs@);
    while i > 0
        invariant
            i <= cs@.len(),
            comparison_fact(cs@, a@, b@) == comparison_fact(cs@.take(i as int), a@, b@),
        decreases i,
    {
        let ghost pre = cs@.take(i as int);
        assert(pre.drop_last() =~= cs@.take(i - 1));
        if str_eq(cs[i - 1].0.as_str(), a) && str_eq(cs[i - 1].1.as_str(), b) {
            return Some(cs[i - 1].2);
        }
        i -= 1;
    }
    None
}

fn strings_equal(a: &Vec<String>, b: &Vec<String>) -> (r: bool)
    ensures
        r == (views(a@) == views(b@)),
{
    if a.len() != b.len() {
        assert(views(a@).len() != views(b@).len());
        return false;
    }
    let mut i: usize = 0;
    while i < a.len()
        invariant
            a.len() == b.len(),
            i <= a.len(),
            forall|j: int| 0 <= j < i ==> a@[j]@ == b@[j]@,
        decreases a.len() - i,
    {
        if !str_eq(a[i].as_str(), b[i].as_str()) {
            assert(views(a@)[i as int] != views(b@)[i as int]);
            return false;
        }
        i += 1;
    }
    assert(views(a@) =~= views(b@));
    true
}

fn digest_lookup(ds: &Vec<(Vec<String>, String)>, p: &Vec<String>) -> (r: Option<String>)
    ensures
        match r {
            Some(d) => digest_fact(ds@, views(p@)) == Some(d@),
            None => digest_fact(ds@, views(p@)) is None,
        },
{
    let mut i: usize = ds.len();
    assert(ds@.take(ds@.len() as int) =~= ds@);
    while i > 0
        invariant
            i <= ds@.len(),
            digest_fact(ds@, views(p@)) == digest_fact(ds@.take(i as int), views(p@)),
        decreases i,
    {
        let ghost pre = ds@.take(i as int);
        assert(pre.drop_last() =~= ds@.take(i - 1));
        if strings_equal(&ds[i - 1].0, p) {
            return Some(ds[i - 1].1.clone());
        }
        i -= 1;
    }
    None
}

fn text_of(b: bool) -> (r: String)
    ensures
        r@ == bool_text(b),
{
    if b {
        owned("true")
    } else {
        owned("false")
    }
}

fn unquoted_exec(t: &str) -> (r: String)
    ensures
        r@ == unquoted(t@),
{
    let c = chars_of(t);
    let n = c.len();
    if is_quoted(t) {
        if n >= 2 {
            slice_string(c.as_slice(), 1, n - 1)
        } else {
            String::new()
        }
    } else {
        owned(t)
    }
}

fn comparison_op_str(k: usize) -> (r: &'static str)
    requires
        k < 6,
    ensures
        r@ == comparison_op(k as int),
        r@.len() > 0,
{
    proof {
        reveal_strlit("!=");
        reveal_strlit("==");
        reveal_strlit("<=");
        reveal_strlit(">=");
        reveal_strlit("<");
        reveal_strlit(">");
    }
    if k == 0 {
        "!="
    } else if k == 1 {
        "=="
    } else if k == 2 {
        "<="
    } else if k == 3 {
        ">="
    } else if k == 4 {
        "<"
    } else {
        ">"
    }
}

fn comparison_split_exec(t: &str) -> (r: Option<(usize, Vec<String>)>)
    ensures
        match r {
            Some((k, v)) => comparison_split(t@, 0) == Some((k as int, views(v@))) && k < 6 && v@.len() == 2
                && comparison_op(k as int).len() > 0 && views(v@) == split_top(t@, comparison_op(k as int)),
            None => comparison_split(t@, 0) is None,
        },
{
    let mut k: usize = 0;
    while k < 6
        invariant
            k <= 6,
            comparison_split(t@, 0) == comparison_split(t@, k as int),
        decreases 6 - k,
    {
        let op = comparison_op_str(k);
        let parts = split_top_level(t, op);
        if parts.len() == 2 {
            return Some((k, parts));
        }
        k += 1;
    }
    None
}

/// Comparison operators mean what they say, for every pair of operands. `!=` (operator 0) is
/// the negation of `==` (operator 1). On operands that are not both numbers, `==` holds exactly
/// when the lowercased texts are equal, `<` (4) follows the character order of the lowercased
/// texts, `>` (5) is `<` with the operands swapped, `<=` (2) is `<` or `==`, `>=` (3) is `>` or
/// `==`, and exactly one of `<`, `==`, `>` holds. On numbers each operator follows the numeric
/// relation the host reported.
pub proof fn lemma_comparison_meanings(a: Seq<char>, b: Seq<char>, less: bool, equal: bool, greater: bool)
    ensures
        compared(0, a, b, NumberRelation::NotNumbers) == !compared(1, a, b, NumberRelation::NotNumbers),
        compared(0, a, b, NumberRelation::NotNumbers) == (lowercase(a) != lowercase(b)),
        compared(1, a, b, NumberRelation::NotNumbers) == (lowercase(a) == lowercase(b)),
        compared(4, a, b, NumberRelation::NotNumbers) == seq_lt(lowercase(a), lowercase(b)),
        compared(5, a, b, NumberRelation::NotNumbers) == compared(4, b, a, NumberRelation::NotNumbers),
        compared(2, a, b, NumberRelation::NotNumbers)
            == (compared(4, a, b, NumberRelation::NotNumbers) || compared(1, a, b, NumberRelation::NotNumbers)),
        compared(3, a, b, NumberRelation::NotNumbers)
            == (compared(5, a, b, NumberRelation::NotNumbers) || compared(1, a, b, NumberRelation::NotNumbers)),
        compared(1, a, b, NumberRelation::NotNumbers) || compared(4, a, b, NumberRelation::NotNumbers)
            || compared(5, a, b, NumberRelation::NotNumbers),
        !(compared(4, a, b, NumberRelation::NotNumbers) && compared(5, a, b, NumberRelation::NotNumbers)),
        !(compared(4, a, b, NumberRelation::NotNumbers) && compared(1, a, b, NumberRelation::NotNumbers)),
        compared(0, a, b, NumberRelation::Ordered { less, equal, greater }) == !equal,
        compared(1, a, b, NumberRelation::Ordered { less, equal, greater }) == equal,
        compared(2, a, b, NumberRelation::Ordered { less, equal, greater }) == (less || equal),
        compared(3, a, b, NumberRelation::Ordered { less, equal, greater }) == (greater || equal),
        compared(4, a, b, NumberRelation::Ordered { less, equal, greater }) == less,
        compared(5, a, b, NumberRelation::Ordered { less, equal, greater }) == greater,
{
    crate::strmap::lemma_seq_lt_trichotomy(lowercase(a), lowercase(b));
}

fn compared_exec(k: usize, a: &str, b: &str, rel: NumberRelation) -> (r: bool)
    ensures
        r == compared(k as int, a@, b@, rel),
{
    match rel {
        NumberRelation::Ordered { less, equal, greater } => if k == 0 {
            !equal
        } else if k == 1 {
            equal
        } else if k == 2 {
            less || equal
        } else if k == 3 {
            greater || equal
        } else if k == 4 {
            less
        } else {
            greater
        },
        NumberRelation::NotNumbers => {
            let x = lowercase_of(a);
            let y = lowercase_of(b);
            let o = compare_str(x.as_str(), y.as_str());
            if k == 0 {
                o != 0
            } else if k == 1 {
                o == 0
            } else if k == 2 {
                o != 1
            } else if k == 3 {
                o != -1
            } else if k == 4 {
                o == -1
            } else {
                o == 1
            }
        },
    }
}

fn env_or(c: &ExpressionContext, key: &str, fallback: &str) -> (r: String)
    requires
        c.wf(),
    ensures
        r@ == (if text_map(c.env).contains_key(key@) { text_map(c.env)[key@] } else { fallback@ }),
{
    match c.env.get(key) {
        Some(v) => v.clone(),
        None => owned(fallback),
    }
}

fn keyword_exec(t: &str, c: &ExpressionContext) -> (r: Option<String>)
    requires
        c.wf(),
    ensures
        match r {
            Some(v) => keyword_value(t@, *c) == Some(v@),
            None => keyword_value(t@, *c) is None,
        },
{
    proof {
        reveal_strlit("");
        assert(""@ =~= Seq::<char>::empty());
    }
    if str_eq(t, "true") {
        Some(owned("true"))
    } else if str_eq(t, "false") {
        Some(owned("false"))
    } else if str_eq(t, "null") {
        Some(owned(""))
    } else if str_eq(t, "success()") {
        Some(env_or(c, "__all_success", "true"))
    } else if str_eq(t, "failure()") {
        Some(env_or(c, "__any_failure", "false"))
    } else if str_eq(t, "always()") {
        Some(owned("true"))
    } else if str_eq(t, "cancelled()") {
        Some(owned("false"))
    } else {
        None
    }
}

fn any_item_is_exec(items: &Vec<String>, needle: &str) -> (r: bool)
    ensures
        r == any_item_is(views(items@), needle@),
{
    let mut i: usize = 0;
    while i < items.len()
        invariant
            i <= items.len(),
            forall|j: int| 0 <= j < i ==> lowercase(#[trigger] views(items@)[j]) != needle@,
        decreases items.len() - i,
    {
        let x = lowercase_of(items[i].as_str());
        assert(views(items@)[i as int] == items@[i as int]@);
        if str_eq(x.as_str(), needle) {
            return true;
        }
        i += 1;
    }
    false
}

fn formatted_exec(template: &str, values: &Vec<String>, from: usize) -> (r: String)
    requires
        from <= values.len(),
    ensures
        r@ == formatted(template@, views(values@).skip(from as int)),
{
    let mut out = owned(template);
    let mut i: usize = from;
    let ghost vs = views(values@).skip(from as int);
    assert(vs.take(0) =~= Seq::<Seq<char>>::empty());
    while i < values.len()
        invariant
            from <= i <= values.len(),
            vs == views(values@).skip(from as int),
            out@ == formatted(template@, vs.take(i - from)),
        decreases values.len() - i,
    {
        let n = usize_to_string(i - from);
        let mut pattern = owned("{");
        pattern.append(n.as_str());
        pattern.append("}");
        proof {
            reveal_strlit("{");
            reveal_strlit("}");
            assert(vs.take(i - from + 1).drop_last() =~= vs.take(i - from));
            assert(vs.take(i - from + 1).last() == values@[i as int]@);
        }
        out = replace_str(out.as_str(), pattern.as_str(), values[i].as_str());
        i += 1;
    }
    assert(vs.take(values.len() - from) =~= vs);
    out
}

fn apply_function_exec(name: &str, args: &Vec<String>, vals: &Vec<String>, whole: &str, c: &ExpressionContext, f: &EvalFacts) -> (r: Result<String, EvalQuery>)
    requires
        vals@.len() == args@.len(),
    ensures
        eval_result_view(r) == apply_function(name@, views(args@), views(vals@), whole@, *c, *f),
{
    proof {
        reveal_strlit("contains");
        reveal_strlit("startsWith");
        reveal_strlit("endsWith");
        reveal_strlit("fromJSON");
        reveal_strlit("toJSON");
        reveal_strlit("format");
        reveal_strlit("join");
        reveal_strlit("hashFiles");
        reveal_strlit(", ");
    }
    if str_eq(name, "contains") {
        if args.len() < 2 {
            return Ok(owned("false"));
        }
        assert(views(vals@)[0] == vals@[0]@ && views(vals@)[1] == vals@[1]@);
        let needle = lowercase_of(vals[1].as_str());
        match json_array_texts_of(vals[0].as_str()) {
            Some(items) => Ok(text_of(any_item_is_exec(&items, needle.as_str()))),
            None => {
                let hay = lowercase_of(vals[0].as_str());
                Ok(text_of(contains(hay.as_str(), needle.as_str())))
            },
        }
    } else if str_eq(name, "startsWith") || str_eq(name, "endsWith") {
        if args.len() < 2 {
            return Ok(owned("false"));
        }
        assert(views(vals@)[0] == vals@[0]@ && views(vals@)[1] == vals@[1]@);
        let a = lowercase_of(vals[0].as_str());
        let b = lowercase_of(vals[1].as_str());
        if str_eq(name, "startsWith") {
            Ok(text_of(starts_with(a.as_str(), b.as_str())))
        } else {
            Ok(text_of(ends_with(a.as_str(), b.as_str())))
        }
    } else if str_eq(name, "fromJSON") {
        Ok(json_from_text_of(whole))
    } else if str_eq(name, "toJSON") {
        Ok(json_pretty_text_of(whole))
    } else if str_eq(name, "format") {
        let template = if args.len() > 0 {
            assert(views(args@)[0] == args@[0]@);
            unquoted_exec(args[0].as_str())
        } else {
            String::new()
        };
        if vals.len() == 0 {
            assert(views(vals@).skip(0) =~= Seq::<Seq<char>>::empty());
            return Ok(formatted_exec(template.as_str(), vals, 0));
        }
        Ok(formatted_exec(template.as_str(), vals, 1))
    } else if str_eq(name, "join") {
        let value = if args.len() > 0 {
            assert(views(vals@)[0] == vals@[0]@);
            vals[0].clone()
        } else {
            String::new()
        };
        let sep = if args.len() > 1 {
            assert(views(vals@)[1] == vals@[1]@);
            vals[1].clone()
        } else {
            owned(", ")
        };
        match json_array_texts_of(value.as_str()) {
            Some(items) => Ok(join_strings(&items, sep.as_str())),
            None => Ok(value),
        }
    } else if str_eq(name, "hashFiles") {
        match &c.repo_path {
            None => Ok(owned(ZERO_SHA)),
            Some(_) => match digest_lookup(&f.digests, vals) {
                Some(d) => Ok(d),
                None => Err(EvalQuery::HashFiles(crate::text::copy_strings(vals))),
            },
        }
    } else {
        Ok(String::new())
    }
}

/// Evaluates an expression against a context and the facts the host has supplied: its value,
/// or the fact it still needs.
pub fn evaluate_expr_value(expression: &str, context: &ExpressionContext, facts: &EvalFacts) -> (r: Result<String, EvalQuery>)
    requires
        context.wf(),
    ensures
        eval_result_view(r) == expr_value(expression@, *context, *facts),
    decreases expression@.len(),
{
    proof {
        lemma_trim_len(expression@);
        reveal_strlit("||");
        reveal_strlit("&&");
        reveal_strlit("fromJSON");
        reveal_strlit("toJSON");
    }
    let bound: Ghost<int> = Ghost(expression@.len() as int);
    let t = trim_str(expression);
    let tc = chars_of(t.as_str());
    if tc.len() == 0 {
        return Ok(String::new());
    }
    if let Some(inner) = strip_outer_parens(t.as_str()) {
        proof {
            lemma_outer_parens_len(t@);
        }
        return evaluate_expr_value(inner.as_str(), context, facts);
    }
    let or_parts = split_top_level(t.as_str(), "||");
    let and_parts = split_top_level(t.as_str(), "&&");
    proof {
        lemma_split_top_shorter(t@, "||"@);
        lemma_split_top_shorter(t@, "&&"@);
    }
    if or_parts.len() > 1 {
        let ghost ps = views(or_parts@);
        let mut last = String::new();
        let mut j: usize = 0;
        assert(ps.skip(0) =~= ps);
        assert(last@ =~= Seq::<char>::empty());
        assert(expr_value(expression@, *context, *facts) == or_chain(ps, bound@, *context, *facts, Seq::empty()));
        while j < or_parts.len()
            invariant
                expr_value(expression@, *context, *facts) == or_chain(ps, bound@, *context, *facts, Seq::empty()),
                j <= or_parts.len(),
                ps == views(or_parts@),
                ps.len() > 1,
                bound@ == expression@.len(),
                forall|i: int| 0 <= i < ps.len() ==> (#[trigger] ps[i]).len() < expression@.len(),
                or_chain(ps, bound@, *context, *facts, Seq::empty()) == or_chain(ps.skip(j as int), bound@, *context, *facts, last@),
                context.wf(),
            decreases or_parts.len() - j,
        {
            assert(ps.skip(j as int)[0] == or_parts@[j as int]@);
            assert(ps.skip(j as int).skip(1) =~= ps.skip(j + 1));
            assert(ps[j as int] == or_parts@[j as int]@);
            let v = evaluate_expr_value(or_parts[j].as_str(), context, facts)?;
            if is_truthy(v.as_str()) {
                return Ok(v);
            }
            last = v;
            j += 1;
        }
        assert(ps.skip(j as int) =~= Seq::<Seq<char>>::empty());
        return Ok(last);
    }
    if and_parts.len() > 1 {
        let ghost ps = views(and_parts@);
        let mut last = String::new();
        let mut j: usize = 0;
        assert(ps.skip(0) =~= ps);
        assert(last@ =~= Seq::<char>::empty());
        assert(expr_value(expression@, *context, *facts) == and_chain(ps, bound@, *context, *facts, Seq::empty()));
        while j < and_parts.len()
            invariant
                expr_value(expression@, *context, *facts) == and_chain(ps, bound@, *context, *facts, Seq::empty()),
                j <= and_parts.len(),
                ps == views(and_parts@),
                ps.len() > 1,
                bound@ == expression@.len(),
                forall|i: int| 0 <= i < ps.len() ==> (#[trigger] ps[i]).len() < expression@.len(),
                and_chain(ps, bound@, *context, *facts, Seq::empty()) == and_chain(ps.skip(j as int), bound@, *context, *facts, last@),
                context.wf(),
            decreases and_parts.len() - j,
        {
            assert(ps.skip(j as int)[0] == and_parts@[j as int]@);
            assert(ps.skip(j as int).skip(1) =~= ps.skip(j + 1));
            assert(ps[j as int] == and_parts@[j as int]@);
            let v = evaluate_expr_value(and_parts[j].as_str(), context, facts)?;
            if !is_truthy(v.as_str()) {
                return Ok(v);
            }
            last = v;
            j += 1;
        }
        assert(ps.skip(j as int) =~= Seq::<Seq<char>>::empty());
        return Ok(last);
    }
    if let Some((k, parts)) = comparison_split_exec(t.as_str()) {
        proof {
            lemma_split_top_shorter(t@, comparison_op(k as int));
            assert(views(parts@)[0] == parts@[0]@);
            assert(views(parts@)[1] == parts@[1]@);
        }
        let a = evaluate_expr_value(parts[0].as_str(), context, facts)?;
        let b = evaluate_expr_value(parts[1].as_str(), context, facts)?;
        return match comparison_lookup(&facts.comparisons, a.as_str(), b.as_str()) {
            None => Err(EvalQuery::Compare(a, b)),
            Some(rel) => Ok(text_of(compared_exec(k, a.as_str(), b.as_str(), rel))),
        };
    }
    if tc[0] == '!' {
        let n = tc.len();
        let rest = slice_string(tc.as_slice(), 1, n);
        assert(rest@ =~= t@.skip(1));
        let v = evaluate_expr_value(rest.as_str(), context, facts)?;
        return Ok(text_of(!is_truthy(v.as_str())));
    }
    if is_quoted(t.as_str()) {
        return Ok(unquoted_exec(t.as_str()));
    }
    if let Some(v) = keyword_exec(t.as_str(), context) {
        return Ok(v);
    }
    match literal_lookup(&facts.literals, t.as_str()) {
        None => {
            return Err(EvalQuery::IsNumber(t));
        },
        Some(true) => {
            return Ok(t);
        },
        Some(false) => {},
    }
    match parse_function_call(t.as_str()) {
        Some((name, raw)) => {
            proof {
                crate::text::lemma_first_index_exists(t@, '(');
                reveal_strlit(",");
            }
            assert(raw@.len() < t@.len());
            let args = split_function_args(raw.as_str());
            let ghost ps = views(args@);
            proof {
                lemma_split_top_shorter(raw@, ","@);
                assert forall|i: int| 0 <= i < ps.len() implies (#[trigger] ps[i]).len() < expression@.len() by {
                    let p = split_top(raw@, ","@)[i];
                    assert(ps[i] == trim(p));
                    lemma_trim_len(p);
                }
            }
            let mut vals: Vec<String> = Vec::new();
            let mut j: usize = 0;
            assert(ps.skip(0) =~= ps);
            assert(views(vals@) =~= Seq::<Seq<char>>::empty());
            assert(Seq::<Seq<char>>::empty() + value_list(ps, bound@, *context, *facts)->Ok_0 =~= value_list(ps, bound@, *context, *facts)->Ok_0);
            assert(function_call(t@) == Some((name@, raw@)));
            assert(value_list(ps, bound@, *context, *facts) matches Err(q) ==> expr_value(expression@, *context, *facts) == Err::<Seq<char>, QueryView>(q));
            while j < args.len()
                invariant
                    value_list(ps, bound@, *context, *facts) matches Err(q) ==> expr_value(expression@, *context, *facts) == Err::<Seq<char>, QueryView>(q),
                    j <= args.len(),
                    vals@.len() == j,
                    ps == views(args@),
                    bound@ == expression@.len(),
                    forall|i: int| 0 <= i < ps.len() ==> (#[trigger] ps[i]).len() < expression@.len(),
                    value_list(ps, bound@, *context, *facts) == match value_list(ps.skip(j as int), bound@, *context, *facts) {
                        Ok(rest) => Ok(views(vals@) + rest),
                        Err(q) => Err(q),
                    },
                    context.wf(),
                decreases args.len() - j,
            {
                assert(ps.skip(j as int)[0] == args@[j as int]@);
                assert(ps.skip(j as int).skip(1) =~= ps.skip(j + 1));
                assert(ps[j as int] == args@[j as int]@);
                let v = evaluate_expr_value(args[j].as_str(), context, facts)?;
                proof {
                    let pre = views(vals@);
                    assert(views(vals@.push(v)) =~= pre.push(v@));
                    match value_list(ps.skip(j + 1), bound@, *context, *facts) {
                        Ok(rest) => {
                            assert(pre + (seq![v@] + rest) =~= pre.push(v@) + rest);
                        },
                        Err(_) => {},
                    }
                }
                vals.push(v);
                j += 1;
            }
            proof {
                assert(ps.skip(j as int) =~= Seq::<Seq<char>>::empty());
                assert(views(vals@) + Seq::<Seq<char>>::empty() =~= views(vals@));
            }
            if str_eq(name.as_str(), "fromJSON") || str_eq(name.as_str(), "toJSON") {
                let raw_t = trim_str(raw.as_str());
                if is_quoted(raw_t.as_str()) {
                    let w = unquoted_exec(raw_t.as_str());
                    return apply_function_exec(name.as_str(), &args, &vals, w.as_str(), context, facts);
                }
                let w = evaluate_expr_value(raw.as_str(), context, facts)?;
                return apply_function_exec(name.as_str(), &args, &vals, w.as_str(), context, facts);
            }
            proof {
                reveal_strlit("");
                assert(""@ =~= Seq::<char>::empty());
            }
            apply_function_exec(name.as_str(), &args, &vals, "", context, facts)
        },
        None => match resolve_context_ref(t.as_str(), context) {
            Some(v) => Ok(v),
            None => Ok(String::new()),
        },
    }
}

/// The pieces of a template with each expression replaced by its value, in order; the first
/// fact an expression still needs stops the expansion.
pub open spec fn expanded(parts: Seq<(bool, Seq<char>)>, c: ExpressionContext, f: EvalFacts) -> Result<Seq<char>, QueryView>
    decreases parts.len(),
{
    if parts.len() == 0 {
        Ok(Seq::empty())
    } else {
        match expanded(parts.drop_last(), c, f) {
            Err(q) => Err(q),
            Ok(pre) => if parts.last().0 {
                match expr_value(parts.last().1, c, f) {
                    Err(q) => Err(q),
                    Ok(v) => Ok(pre + v),
                }
            } else {
                Ok(pre + parts.last().1)
            },
        }
    }
}

/// Replaces every `${{ expression }}` of a value with the expression's value.
pub fn expand_expressions(value: &str, context: &ExpressionContext, facts: &EvalFacts) -> (r: Result<String, EvalQuery>)
    requires
        context.wf(),
    ensures
        eval_result_view(r) == expanded(template_from(value@, 0), *context, *facts),
{
    let parts = split_expression_template(value);
    let ghost ps = parts_view(parts@);
    let mut out = String::new();
    let mut i: usize = 0;
    assert(ps.take(0) =~= Seq::<(bool, Seq<char>)>::empty());
    assert(out@ =~= Seq::<char>::empty());
    while i < parts.len()
        invariant
            i <= parts.len(),
            ps == parts_view(parts@),
            ps == template_from(value@, 0),
            expanded(ps.take(i as int), *context, *facts) == Ok::<Seq<char>, QueryView>(out@),
            context.wf(),
        decreases parts.len() - i,
    {
        assert(ps.take(i + 1).drop_last() =~= ps.take(i as int));
        assert(ps.take(i + 1).last() == part_view(parts@[i as int]));
        match &parts[i] {
            TemplatePart::Text(t) => {
                out.append(t.as_str());
            },
            TemplatePart::Expression(e) => {
                match evaluate_expr_value(e.as_str(), context, facts) {
                    Ok(v) => {
                        out.append(v.as_str());
                    },
                    Err(q) => {
                        proof {
                            lemma_expanded_stops(ps, i as int, *context, *facts);
                        }
                        return Err(q);
                    },
                }
            },
        }
        i += 1;
    }
    assert(ps.take(parts.len() as int) =~= ps);
    Ok(out)
}

/// A fact missing at some piece is missing for the whole template.
proof fn lemma_expanded_stops(ps: Seq<(bool, Seq<char>)>, i: int, c: ExpressionContext, f: EvalFacts)
    requires
        0 <= i < ps.len(),
        expanded(ps.take(i + 1), c, f) is Err,
    ensures
        expanded(ps, c, f) == expanded(ps.take(i + 1), c, f),
    decreases ps.len() - i,
{
    if i + 1 < ps.len() {
        assert(ps.take(i + 2).drop_last() =~= ps.take(i + 1));
        assert(expanded(ps.take(i + 2), c, f) == expanded(ps.take(i + 1), c, f));
        lemma_expanded_stops(ps, i + 1, c, f);
    } else {
        assert(ps.take(i + 1) =~= ps);
    }
}

/// Every result word is `success`.
pub open spec fn all_success(results: Map<Seq<char>, Seq<char>>) -> bool {
    forall|k: Seq<char>| #[trigger] results.contains_key(k) ==> results[k] == "success"@
}

/// Some result word is `failure`.
pub open spec fn any_failure(results: Map<Seq<char>, Seq<char>>) -> bool {
    exists|k: Seq<char>| #[trigger] results.contains_key(k) && results[k] == "failure"@
}

/// The context a job's `if:` condition is evaluated in: the default one, with the results of
/// the needed jobs as `needs`, and whether all of them succeeded and whether any failed in the
/// `__all_success` and `__any_failure` env entries.
pub open spec fn job_if_context_ok(c: ExpressionContext, job_results: StrMap<String>, needs: StrMap<StrMap<String>>) -> bool {
    &&& c.wf()
    &&& c.repo_path is None
    &&& text_map(c.secrets) == Map::<Seq<char>, Seq<char>>::empty()
    &&& text_map(c.matrix) == Map::<Seq<char>, Seq<char>>::empty()
    &&& text_map(c.inputs) == Map::<Seq<char>, Seq<char>>::empty()
    &&& text_map(c.vars) == Map::<Seq<char>, Seq<char>>::empty()
    &&& c.runner.os@ == "Linux"@
    &&& c.runner.arch@ == "X64"@
    &&& c.needs == needs
    &&& text_map(c.env) == Map::<Seq<char>, Seq<char>>::empty()
        .insert("__all_success"@, bool_text(all_success(text_map(job_results))))
        .insert("__any_failure"@, bool_text(any_failure(text_map(job_results))))
}

fn all_success_exec(results: &StrMap<String>) -> (r: bool)
    requires
        results.wf(),
    ensures
        r == all_success(text_map(*results)),
{
    proof {
        reveal_strlit("success");
    }
    let mut i: usize = 0;
    while i < results.len()
        invariant
            results.wf(),
            i <= results.keys().len(),
            forall|j: int| 0 <= j < i ==> (#[trigger] results.values()[j])@ == "success"@,
        decreases results.keys().len() - i,
    {
        if !str_eq(results.value_at(i).as_str(), "success") {
            proof {
                results.lemma_index_of(i as int);
                let k = results.keys()[i as int];
                assert(text_map(*results).contains_key(k));
            }
            return false;
        }
        i += 1;
    }
    proof {
        assert forall|k: Seq<char>| #[trigger] text_map(*results).contains_key(k) implies text_map(*results)[k] == "success"@ by {
            assert(results.keys().contains(k));
            let j = results.index_of(k);
            assert(results.values()[j]@ == "success"@);
        }
    }
    true
}

fn any_failure_exec(results: &StrMap<String>) -> (r: bool)
    requires
        results.wf(),
    ensures
        r == any_failure(text_map(*results)),
{
    proof {
        reveal_strlit("failure");
    }
    let mut i: usize = 0;
    while i < results.len()
        invariant
            results.wf(),
            i <= results.keys().len(),
            forall|j: int| 0 <= j < i ==> (#[trigger] results.values()[j])@ != "failure"@,
        decreases results.keys().len() - i,
    {
        if str_eq(results.value_at(i).as_str(), "failure") {
            proof {
                results.lemma_index_of(i as int);
                let k = results.keys()[i as int];
                assert(text_map(*results).contains_key(k));
            }
            return true;
        }
        i += 1;
    }
    proof {
        assert forall|k: Seq<char>| #[trigger] text_map(*results).contains_key(k) implies text_map(*results)[k] != "failure"@ by {
            assert(results.keys().contains(k));
            let j = results.index_of(k);
            assert(results.values()[j]@ != "failure"@);
        }
    }
    false
}

/// The context a job's `if:` condition is evaluated in.
pub fn job_if_context(job_results: &StrMap<String>, needs: StrMap<StrMap<String>>) -> (c: ExpressionContext)
    requires
        job_results.wf(),
        needs.wf(),
        forall|i: int| 0 <= i < needs.values().len() ==> (#[trigger] needs.values()[i]).wf(),
    ensures
        job_if_context_ok(c, *job_results, needs),
{
    let mut c = ExpressionContext::default();
    let all = all_success_exec(job_results);
    let any = any_failure_exec(job_results);
    crate::strmap::insert_text(&mut c.env, "__all_success", text_of(all).as_str());
    crate::strmap::insert_text(&mut c.env, "__any_failure", text_of(any).as_str());
    c.needs = needs;
    proof {
        reveal_strlit("__all_success");
        reveal_strlit("__any_failure");
    }
    c
}

/// Whether a job's `if:` condition holds: the truthiness of its value in the job's condition
/// context, or the fact its evaluation still needs.
pub fn evaluate_job_if(expression: &str, job_results: &StrMap<String>, needs: StrMap<StrMap<String>>, facts: &EvalFacts) -> (r: Result<bool, EvalQuery>)
    requires
        job_results.wf(),
        needs.wf(),
        forall|i: int| 0 <= i < needs.values().len() ==> (#[trigger] needs.values()[i]).wf(),
    ensures
        exists|c: ExpressionContext| #![trigger job_if_context_ok(c, *job_results, needs)]
            job_if_context_ok(c, *job_results, needs) && match r {
                Ok(b) => expr_value(expression@, c, *facts) matches Ok(v) && b == truthy(v),
                Err(q) => expr_value(expression@, c, *facts) == Err::<Seq<char>, QueryView>(query_view(q)),
            },
{
    let c = job_if_context(job_results, needs);
    match evaluate_expr_value(expression, &c, facts) {
        Ok(v) => Ok(is_truthy(v.as_str())),
        Err(q) => Err(q),
    }
}

} // verus!
