//! The context that `${{ }}` expressions read, and the float-free parts of reading them.
use crate::strmap::{StrMap, text_map};
use crate::text::{chars_of, first_index_of, is_ascii_alnum, is_prefix, lemma_trim_end_no_ws,
    lemma_trim_start_no_ws, owned, slice_string, str_eq, trim, trim_str, trim_end, trim_start};
use vstd::prelude::*;

pub mod eval;
pub mod hash;
pub mod template;

verus! {

/// The `runner` context.
#[derive(Debug, Clone, PartialEq, Eq)]
pub struct RunnerContext {
    pub os: String,
    pub arch: String,
}

impl Default for RunnerContext {
    /// A Linux x64 runner.
    fn default() -> (r: Self)
        ensures
            r.os@ == "Linux"@,
            r.arch@ == "X64"@,
    {
        RunnerContext { os: owned("Linux"), arch: owned("X64") }
    }
}

/// Everything an expression can read.
#[derive(Debug, Clone, PartialEq, Eq)]
pub struct ExpressionContext {
    pub repo_path: Option<String>,
    pub secrets: StrMap<String>,
    pub matrix: StrMap<String>,
    pub needs: StrMap<StrMap<String>>,
    pub inputs: StrMap<String>,
    pub vars: StrMap<String>,
    pub runner: RunnerContext,
    pub env: StrMap<String>,
}

/// A map of maps of strings, viewed as nested mathematical maps.
pub open spec fn nested_text_map(m: StrMap<StrMap<String>>) -> Map<Seq<char>, Map<Seq<char>, Seq<char>>> {
    Map::new(|k: Seq<char>| m.lookup(k) is Some, |k: Seq<char>| text_map(m.lookup(k)->0))
}

/// Every inner map is well formed.
pub open spec fn nested_wf(m: StrMap<StrMap<String>>) -> bool {
    m.wf() && forall|i: int| 0 <= i < m.values().len() ==> (#[trigger] m.values()[i]).wf()
}

impl ExpressionContext {
    pub open spec fn wf(&self) -> bool {
        &&& self.secrets.wf()
        &&& self.matrix.wf()
        &&& nested_wf(self.needs)
        &&& self.inputs.wf()
        &&& self.vars.wf()
        &&& self.env.wf()
    }
}

impl Default for ExpressionContext {
    /// No repository, empty maps, the default runner.
    fn default() -> (r: Self)
        ensures
            r.wf(),
            r.repo_path is None,
            text_map(r.secrets) == Map::<Seq<char>, Seq<char>>::empty(),
            text_map(r.matrix) == Map::<Seq<char>, Seq<char>>::empty(),
            nested_text_map(r.needs) == Map::<Seq<char>, Map<Seq<char>, Seq<char>>>::empty(),
            text_map(r.inputs) == Map::<Seq<char>, Seq<char>>::empty(),
            text_map(r.vars) == Map::<Seq<char>, Seq<char>>::empty(),
            text_map(r.env) == Map::<Seq<char>, Seq<char>>::empty(),
            r.runner.os@ == "Linux"@,
            r.runner.arch@ == "X64"@,
    {
        let r = ExpressionContext {
            repo_path: None,
            secrets: StrMap::new(),
            matrix: StrMap::new(),
            needs: StrMap::new(),
            inputs: StrMap::new(),
            vars: StrMap::new(),
            runner: RunnerContext::default(),
            env: StrMap::new(),
        };
        assert(text_map(r.secrets) =~= Map::<Seq<char>, Seq<char>>::empty());
        assert(text_map(r.matrix) =~= Map::<Seq<char>, Seq<char>>::empty());
        assert(nested_text_map(r.needs) =~= Map::<Seq<char>, Map<Seq<char>, Seq<char>>>::empty());
        assert(text_map(r.inputs) =~= Map::<Seq<char>, Seq<char>>::empty());
        assert(text_map(r.vars) =~= Map::<Seq<char>, Seq<char>>::empty());
        assert(text_map(r.env) =~= Map::<Seq<char>, Seq<char>>::empty());
        r
    }
}

// ---------------------------------------------------------------------------
// Reading expressions
// ---------------------------------------------------------------------------

/// Trimming never lengthens.
pub proof fn lemma_trim_len(s: Seq<char>)
    ensures
        trim(s).len() <= s.len(),
{
    lemma_trim_start_no_ws(s);
    lemma_trim_end_no_ws(trim_start(s));
}

/// A value counts as true unless it is empty, `false` or `0`.
pub open spec fn truthy(v: Seq<char>) -> bool {
    !(v == Seq::<char>::empty() || v == "false"@ || v == "0"@)
}

/// Whether a value counts as true.
pub fn is_truthy(value: &str) -> (r: bool)
    ensures
        r == truthy(value@),
{
    proof {
        reveal_strlit("false");
        reveal_strlit("0");
    }
    let c = chars_of(value);
    assert(c.len() == 0 <==> value@ =~= Seq::<char>::empty());
    !(c.len() == 0 || str_eq(value, "false") || str_eq(value, "0"))
}

/// The value starts and ends with the same quote character, single or double.
pub open spec fn quoted(v: Seq<char>) -> bool {
    v.len() > 0 && ((v[0] == '\'' && v.last() == '\'') || (v[0] == '"' && v.last() == '"'))
}

/// Whether a value is a quoted literal.
pub fn is_quoted(value: &str) -> (r: bool)
    ensures
        r == quoted(value@),
{
    let c = chars_of(value);
    let n = c.len();
    n > 0 && ((c[0] == '\'' && c[n - 1] == '\'') || (c[0] == '"' && c[n - 1] == '"'))
}

/// A quoted literal without its quotes; anything else unchanged.
pub fn unquote(value: &str) -> (r: String)
    requires
        !(value@.len() == 1 && quoted(value@)),
    ensures
        r@ == (if quoted(value@) { value@.subrange(1, value@.len() - 1) } else { value@ }),
{
    let c = chars_of(value);
    let n = c.len();
    if n > 0 && ((c[0] == '\'' && c[n - 1] == '\'') || (c[0] == '"' && c[n - 1] == '"')) {
        slice_string(c.as_slice(), 1, n - 1)
    } else {
        owned(value)
    }
}

/// Splitting `s` at top-level occurrences of `op` (outside quotes and parentheses), from
/// position `i` with the given nesting depth, open quote, current piece and finished pieces.
pub open spec fn split_from(s: Seq<char>, op: Seq<char>, i: int, depth: int, quote: Option<char>, cur: Seq<char>, parts: Seq<Seq<char>>) -> Seq<Seq<char>>
    decreases s.len() - i,
{
    if i >= s.len() || i < 0 {
        parts.push(cur)
    } else {
        let ch = s[i];
        match quote {
            Some(q) => split_from(s, op, i + 1, depth, if ch == q { None } else { Some(q) }, cur.push(ch), parts),
            None => if ch == '\'' || ch == '"' {
                split_from(s, op, i + 1, depth, Some(ch), cur.push(ch), parts)
            } else {
                let d = if ch == '(' { depth + 1 } else if ch == ')' { depth - 1 } else { depth };
                if d == 0 && op.len() > 0 && is_prefix(op, s.skip(i)) {
                    split_from(s, op, i + op.len(), d, None, Seq::empty(), parts.push(cur))
                } else {
                    split_from(s, op, i + 1, d, None, cur.push(ch), parts)
                }
            },
        }
    }
}

/// The pieces of `s` between top-level occurrences of `op`.
pub open spec fn split_top(s: Seq<char>, op: Seq<char>) -> Seq<Seq<char>> {
    split_from(s, op, 0, 0, None, Seq::empty(), Seq::empty())
}

/// The total length of some pieces.
pub open spec fn total_len(parts: Seq<Seq<char>>) -> int
    decreases parts.len(),
{
    if parts.len() == 0 {
        0
    } else {
        total_len(parts.drop_last()) + parts.last().len()
    }
}

proof fn lemma_total_len_nonneg(parts: Seq<Seq<char>>)
    ensures
        total_len(parts) >= 0,
    decreases parts.len(),
{
    if parts.len() > 0 {
        lemma_total_len_nonneg(parts.drop_last());
    }
}

proof fn lemma_total_len_bound(parts: Seq<Seq<char>>, k: int)
    requires
        0 <= k < parts.len(),
    ensures
        parts[k].len() <= total_len(parts),
    decreases parts.len(),
{
    lemma_total_len_nonneg(parts.drop_last());
    if k < parts.len() - 1 {
        lemma_total_len_bound(parts.drop_last(), k);
        assert(parts.drop_last()[k] == parts[k]);
    }
}

proof fn lemma_split_from_len(s: Seq<char>, op: Seq<char>, i: int, depth: int, quote: Option<char>, cur: Seq<char>, parts: Seq<Seq<char>>)
    requires
        0 <= i <= s.len(),
        op.len() > 0,
        total_len(parts) + cur.len() + parts.len() * op.len() == i,
    ensures
        total_len(split_from(s, op, i, depth, quote, cur, parts)) + (split_from(s, op, i, depth, quote, cur, parts).len() - 1) * op.len() == s.len(),
        split_from(s, op, i, depth, quote, cur, parts).len() >= 1,
    decreases s.len() - i,
{
    if i < s.len() {
        let ch = s[i];
        match quote {
            Some(q) => {
                lemma_split_from_len(s, op, i + 1, depth, if ch == q { None } else { Some(q) }, cur.push(ch), parts);
            },
            None => {
                if ch == '\'' || ch == '"' {
                    lemma_split_from_len(s, op, i + 1, depth, Some(ch), cur.push(ch), parts);
                } else {
                    let d = if ch == '(' { depth + 1 } else if ch == ')' { depth - 1 } else { depth };
                    if d == 0 && op.len() > 0 && is_prefix(op, s.skip(i)) {
                        assert(parts.push(cur).drop_last() =~= parts);
                        assert((parts.len() + 1) * op.len() == parts.len() * op.len() + op.len()) by (nonlinear_arith);
                        lemma_split_from_len(s, op, i + op.len(), d, None, Seq::empty(), parts.push(cur));
                    } else {
                        lemma_split_from_len(s, op, i + 1, d, None, cur.push(ch), parts);
                    }
                }
            },
        }
    } else {
        assert(parts.push(cur).drop_last() =~= parts);
    }
}

/// When `s` splits into more than one piece, every piece is shorter than `s`; a single piece
/// is `s` itself at most.
pub proof fn lemma_split_top_shorter(s: Seq<char>, op: Seq<char>)
    requires
        op.len() > 0,
    ensures
        split_top(s, op).len() >= 1,
        forall|k: int| 0 <= k < split_top(s, op).len() ==> (#[trigger] split_top(s, op)[k]).len() <= s.len(),
        split_top(s, op).len() > 1 ==> forall|k: int| 0 <= k < split_top(s, op).len() ==> (#[trigger] split_top(s, op)[k]).len() < s.len(),
{
    lemma_split_from_len(s, op, 0, 0, None, Seq::empty(), Seq::empty());
    let p = split_top(s, op);
    assert forall|k: int| 0 <= k < p.len() implies (#[trigger] p[k]).len() <= s.len()
        && (p.len() > 1 ==> p[k].len() < s.len()) by {
        lemma_total_len_bound(p, k);
        assert((p.len() - 1) * op.len() >= 0) by (nonlinear_arith)
            requires
                p.len() >= 1,
                op.len() > 0,
        ;
        if p.len() > 1 {
            assert((p.len() - 1) * op.len() >= 1) by (nonlinear_arith)
                requires
                    p.len() > 1,
                    op.len() > 0,
            ;
        }
    }
}

/// Splits at top-level occurrences of `op`, outside quotes and parentheses.
pub fn split_top_level(expression: &str, operator: &str) -> (r: Vec<String>)
    requires
        operator@.len() > 0,
    ensures
        crate::text::views(r@) == split_top(expression@, operator@),
{
    let s = chars_of(expression);
    let op = chars_of(operator);
    let mut parts: Vec<String> = Vec::new();
    let mut current: Vec<char> = Vec::new();
    let mut depth: i128 = 0;
    let mut quote: Option<char> = None;
    let mut index: usize = 0;
    assert(crate::text::views(parts@) =~= Seq::<Seq<char>>::empty());
    assert(current@ =~= Seq::<char>::empty());
    while index < s.len()
        invariant
            s@ == expression@,
            op@ == operator@,
            op@.len() > 0,
            index <= s.len(),
            -(index as int) <= depth <= index as int,
            split_from(s@, op@, index as int, depth as int, quote, current@, crate::text::views(parts@))
                == split_top(expression@, operator@),
        decreases s.len() - index,
    {
        let ch = s[index];
        match quote {
            Some(q) => {
                current.push(ch);
                if ch == q {
                    quote = None;
                }
                index += 1;
            },
            None => {
                if ch == '\'' || ch == '"' {
                    quote = Some(ch);
                    current.push(ch);
                    index += 1;
                } else {
                    if ch == '(' {
                        depth = depth + 1;
                    } else if ch == ')' {
                        depth = depth - 1;
                    }
                    let at_op = crate::text::chars_occur_at(s.as_slice(), op.as_slice(), index);
                    proof {
                        if index as int + op@.len() <= s@.len() {
                            assert(s@.skip(index as int).take(op@.len() as int) =~= s@.subrange(index as int, index + op@.len()));
                        }
                    }
                    if depth == 0 && at_op {
                        let piece = crate::text::from_chars(current.as_slice());
                        proof {
                            assert(crate::text::views(parts@.push(piece)) =~= crate::text::views(parts@).push(current@));
                        }
                        parts.push(piece);
                        current = Vec::new();
                        index += op.len();
                    } else {
                        current.push(ch);
                        index += 1;
                    }
                }
            },
        }
    }
    let last = crate::text::from_chars(current.as_slice());
    proof {
        assert(crate::text::views(parts@.push(last)) =~= crate::text::views(parts@).push(current@));
    }
    parts.push(last);
    parts
}

/// Where the parenthesis opened at the start of `s` closes, scanning from `i` with the given
/// depth and open quote: the first position outside quotes at which the depth is back to zero.
pub open spec fn close_index(s: Seq<char>, i: int, depth: int, quote: Option<char>) -> Option<int>
    decreases s.len() - i,
{
    if i >= s.len() || i < 0 {
        None
    } else {
        let ch = s[i];
        match quote {
            Some(q) => close_index(s, i + 1, depth, if ch == q { None } else { Some(q) }),
            None => if ch == '\'' || ch == '"' {
                close_index(s, i + 1, depth, Some(ch))
            } else {
                let d = if ch == '(' { depth + 1 } else if ch == ')' { depth - 1 } else { depth };
                if d == 0 {
                    Some(i)
                } else {
                    close_index(s, i + 1, d, None)
                }
            },
        }
    }
}

proof fn lemma_close_index_after(s: Seq<char>, i: int, depth: int, quote: Option<char>)
    ensures
        close_index(s, i, depth, quote) matches Some(j) ==> j >= i,
    decreases s.len() - i,
{
    if 0 <= i < s.len() {
        let ch = s[i];
        match quote {
            Some(q) => lemma_close_index_after(s, i + 1, depth, if ch == q { None } else { Some(q) }),
            None => if ch == '\'' || ch == '"' {
                lemma_close_index_after(s, i + 1, depth, Some(ch));
            } else {
                let d = if ch == '(' { depth + 1 } else if ch == ')' { depth - 1 } else { depth };
                if d != 0 {
                    lemma_close_index_after(s, i + 1, d, None);
                }
            },
        }
    }
}

/// The inside is two characters shorter.
pub proof fn lemma_outer_parens_len(s: Seq<char>)
    ensures
        outer_parens(s) matches Some(inner) ==> inner.len() + 2 == s.len(),
{
    if s.len() > 0 && s[0] == '(' {
        lemma_close_index_after(s, 1, 1, None);
        assert(close_index(s, 0, 0, None) == close_index(s, 1, 1, None));
    }
}

/// The inside of `s` when one pair of parentheses encloses all of it.
pub open spec fn outer_parens(s: Seq<char>) -> Option<Seq<char>> {
    if s.len() == 0 || s[0] != '(' {
        None
    } else {
        match close_index(s, 0, 0, None) {
            Some(i) => if i == s.len() - 1 {
                Some(s.subrange(1, s.len() - 1))
            } else {
                None
            },
            None => None,
        }
    }
}

/// The inside of a fully parenthesised expression.
pub fn strip_outer_parens(trimmed: &str) -> (r: Option<String>)
    ensures
        match r {
            Some(x) => outer_parens(trimmed@) == Some(x@),
            None => outer_parens(trimmed@) is None,
        },
{
    let s = chars_of(trimmed);
    if s.len() == 0 || s[0] != '(' {
        return None;
    }
    let mut depth: i128 = 0;
    let mut quote: Option<char> = None;
    let mut index: usize = 0;
    while index < s.len()
        invariant
            s@ == trimmed@,
            s@.len() > 0 && s@[0] == '(',
            index <= s.len(),
            -(index as int) <= depth <= index as int,
            close_index(s@, index as int, depth as int, quote) == close_index(s@, 0, 0, None),
        decreases s.len() - index,
    {
        let ch = s[index];
        match quote {
            Some(q) => {
                if ch == q {
                    quote = None;
                }
            },
            None => {
                if ch == '\'' || ch == '"' {
                    quote = Some(ch);
                } else {
                    if ch == '(' {
                        depth = depth + 1;
                    } else if ch == ')' {
                        depth = depth - 1;
                    }
                    if depth == 0 {
                        let n = s.len();
                        if index == n - 1 {
                            return Some(slice_string(s.as_slice(), 1, n - 1));
                        } else {
                            return None;
                        }
                    }
                }
            },
        }
        index += 1;
    }
    None
}

/// Where the first `(` of `t` is (meaningful when it has one).
pub open spec fn open_paren_at(t: Seq<char>) -> int {
    choose|i: int| first_index_of(t, '(', i)
}

/// A function name: letters, digits and underscores.
pub open spec fn name_chars(name: Seq<char>) -> bool {
    forall|i: int| 0 <= i < name.len() ==> is_ascii_alnum(#[trigger] name[i]) || name[i] == '_'
}

/// `name(args)`: the name before the first `(` and the text up to the final `)`.
pub open spec fn function_call(t: Seq<char>) -> Option<(Seq<char>, Seq<char>)> {
    if !t.contains('(') || t.len() == 0 || t.last() != ')' {
        None
    } else {
        let open = open_paren_at(t);
        let name = t.take(open);
        if name_chars(name) {
            Some((name, t.subrange(open + 1, t.len() - 1)))
        } else {
            None
        }
    }
}

/// Splits `name(args)` into its name and raw arguments.
pub fn parse_function_call(trimmed: &str) -> (r: Option<(String, String)>)
    ensures
        match r {
            Some(p) => function_call(trimmed@) == Some((p.0@, p.1@)),
            None => function_call(trimmed@) is None,
        },
{
    let s = chars_of(trimmed);
    let open = match crate::text::contains_char(s.as_slice(), '(') {
        Some(i) => i,
        None => {
            return None;
        },
    };
    proof {
        crate::text::lemma_first_index_unique(s@, '(', open as int);
        assert(open_paren_at(trimmed@) == open);
    }
    let n = s.len();
    if s[n - 1] != ')' {
        return None;
    }
    assert(trimmed@[open as int] == '(');
    let mut k: usize = 0;
    while k < open
        invariant
            s@ == trimmed@,
            open < s.len(),
            k <= open,
            open_paren_at(trimmed@) == open,
            trimmed@.len() > 0 && trimmed@.last() == ')',
            trimmed@.contains('('),
            forall|j: int| 0 <= j < k ==> is_ascii_alnum(#[trigger] s@[j]) || s@[j] == '_',
        decreases open - k,
    {
        if !(crate::text::char_is_alnum(s[k]) || s[k] == '_') {
            proof {
                let name = s@.take(open as int);
                assert(name[k as int] == s@[k as int]);
                assert(!name_chars(name));
            }
            return None;
        }
        k += 1;
    }
    proof {
        let name = s@.take(open as int);
        assert forall|i: int| 0 <= i < name.len() implies is_ascii_alnum(#[trigger] name[i]) || name[i] == '_' by {
            assert(name[i] == s@[i]);
        }
    }
    let name = slice_string(s.as_slice(), 0, open);
    let args = slice_string(s.as_slice(), open + 1, n - 1);
    Some((name, args))
}

/// The arguments of a call: split at top-level commas, each trimmed.
pub open spec fn function_args(args: Seq<char>) -> Seq<Seq<char>> {
    split_top(args, ","@).map_values(|p: Seq<char>| trim(p))
}

/// Splits raw call arguments at top-level commas.
pub fn split_function_args(args: &str) -> (r: Vec<String>)
    ensures
        crate::text::views(r@) == function_args(args@),
{
    proof {
        reveal_strlit(",");
    }
    let parts = split_top_level(args, ",");
    let ghost ps = crate::text::views(parts@);
    let mut r: Vec<String> = Vec::new();
    let mut i: usize = 0;
    while i < parts.len()
        invariant
            i <= parts.len(),
            ps == crate::text::views(parts@),
            crate::text::views(r@) == ps.take(i as int).map_values(|p: Seq<char>| trim(p)),
        decreases parts.len() - i,
    {
        let t = trim_str(parts[i].as_str());
        proof {
            assert(crate::text::views(r@.push(t)) =~= crate::text::views(r@).push(t@));
        }
        r.push(t);
        i += 1;
        assert(crate::text::views(r@) =~= ps.take(i as int).map_values(|p: Seq<char>| trim(p)));
    }
    assert(ps.take(parts.len() as int) =~= ps);
    r
}

/// `success`, `failure`, `always` or `cancelled`.
pub open spec fn status_function_name(n: Seq<char>) -> bool {
    n == "success"@ || n == "failure"@ || n == "always"@ || n == "cancelled"@
}

/// The comparison and logic operators, in the order the reader tries them.
pub open spec fn operator_at(k: int) -> Seq<char> {
    if k == 0 {
        "||"@
    } else if k == 1 {
        "&&"@
    } else if k == 2 {
        "!="@
    } else if k == 3 {
        "=="@
    } else if k == 4 {
        "<="@
    } else if k == 5 {
        ">="@
    } else if k == 6 {
        "<"@
    } else {
        ">"@
    }
}

/// The split at the first operator, from the `k`-th on, that splits `t` into several pieces.
pub open spec fn first_split(t: Seq<char>, k: int) -> Option<Seq<Seq<char>>>
    decreases 8 - k,
{
    if k >= 8 || k < 0 {
        None
    } else {
        let p = split_top(t, operator_at(k));
        if p.len() > 1 {
            Some(p)
        } else {
            first_split(t, k + 1)
        }
    }
}

/// Some piece shorter than `bound` calls a status function.
pub open spec fn any_status_check(parts: Seq<Seq<char>>, bound: int) -> bool
    decreases bound, parts.len(),
{
    if parts.len() == 0 {
        false
    } else {
        (parts[0].len() < bound && status_check(parts[0])) || any_status_check(parts.skip(1), bound)
    }
}

/// The expression calls `success()`, `failure()`, `always()` or `cancelled()` somewhere outside
/// quotes: through parentheses, the pieces of the first operator that splits it, a leading `!`,
/// and the arguments of function calls.
pub open spec fn status_check(e: Seq<char>) -> bool
    decreases e.len() + 1, 0int,
{
    let t = trim(e);
    if t.len() == 0 || quoted(t) {
        false
    } else {
        match outer_parens(t) {
            Some(inner) => any_status_check(seq![inner], e.len() as int),
            None => match first_split(t, 0) {
                Some(parts) => any_status_check(parts, e.len() as int),
                None => if t[0] == '!' {
                    any_status_check(seq![t.skip(1)], e.len() as int)
                } else {
                    match function_call(t) {
                        None => false,
                        Some(call) => if status_function_name(call.0) && trim(call.1).len() == 0 {
                            true
                        } else {
                            any_status_check(function_args(call.1), e.len() as int)
                        },
                    }
                },
            },
        }
    }
}

fn operator_str(k: usize) -> (r: &'static str)
    requires
        k < 8,
    ensures
        r@ == operator_at(k as int),
        r@.len() > 0,
{
    proof {
        reveal_strlit("||");
        reveal_strlit("&&");
        reveal_strlit("!=");
        reveal_strlit("==");
        reveal_strlit("<=");
        reveal_strlit(">=");
        reveal_strlit("<");
        reveal_strlit(">");
    }
    if k == 0 {
        "||"
    } else if k == 1 {
        "&&"
    } else if k == 2 {
        "!="
    } else if k == 3 {
        "=="
    } else if k == 4 {
        "<="
    } else if k == 5 {
        ">="
    } else if k == 6 {
        "<"
    } else {
        ">"
    }
}

fn first_split_exec(t: &str) -> (r: Option<Vec<String>>)
    ensures
        match r {
            Some(v) => first_split(t@, 0) == Some(crate::text::views(v@)),
            None => first_split(t@, 0) is None,
        },
        r matches Some(v) ==> v@.len() > 1 && forall|i: int| 0 <= i < v@.len() ==> (#[trigger] v@[i])@.len() < t@.len(),
{
    let mut k: usize = 0;
    while k < 8
        invariant
            k <= 8,
            first_split(t@, 0) == first_split(t@, k as int),
        decreases 8 - k,
    {
        let op = operator_str(k);
        let parts = split_top_level(t, op);
        if parts.len() > 1 {
            proof {
                lemma_split_top_shorter(t@, op@);
                assert forall|i: int| 0 <= i < parts@.len() implies (#[trigger] parts@[i])@.len() < t@.len() by {
                    assert(crate::text::views(parts@)[i] == parts@[i]@);
                }
            }
            return Some(parts);
        }
        k += 1;
    }
    None
}

/// Whether an expression calls a status function (`success()`, `failure()`, `always()` or
/// `cancelled()`) outside quoted strings.
pub fn uses_status_check_function(expression: &str) -> (r: bool)
    ensures
        r == status_check(expression@),
    decreases expression@.len(),
{
    proof {
        lemma_trim_len(expression@);
        reveal_strlit("success");
        reveal_strlit("failure");
        reveal_strlit("always");
        reveal_strlit("cancelled");
    }
    let bound: Ghost<int> = Ghost(expression@.len() as int);
    let t = trim_str(expression);
    let tc = chars_of(t.as_str());
    if tc.len() == 0 || is_quoted(t.as_str()) {
        return false;
    }
    if let Some(inner) = strip_outer_parens(t.as_str()) {
        proof {
            lemma_outer_parens_len(t@);
        }
        assert(inner@.len() < expression@.len());
        assert(seq![inner@].skip(1) =~= Seq::<Seq<char>>::empty());
        assert(!any_status_check(Seq::<Seq<char>>::empty(), bound@));
        assert(status_check(expression@) == any_status_check(seq![inner@], bound@));
        assert(any_status_check(seq![inner@], bound@) == status_check(inner@));
        return uses_status_check_function(inner.as_str());
    }
    if let Some(parts) = first_split_exec(t.as_str()) {
        let ghost ps = crate::text::views(parts@);
        let mut j: usize = 0;
        assert(ps.skip(0) =~= ps);
        assert(status_check(expression@) == any_status_check(ps, bound@));
        while j < parts.len()
            invariant
                status_check(expression@) == any_status_check(ps, bound@),
                j <= parts.len(),
                ps == crate::text::views(parts@),
                bound@ == expression@.len(),
                forall|i: int| 0 <= i < parts@.len() ==> (#[trigger] parts@[i])@.len() < expression@.len(),
                any_status_check(ps, bound@) == any_status_check(ps.skip(j as int), bound@),
            decreases parts.len() - j,
        {
            assert(ps.skip(j as int)[0] == parts@[j as int]@);
            assert(ps.skip(j as int).skip(1) =~= ps.skip(j + 1));
            assert(parts@[j as int]@.len() < expression@.len());
            if uses_status_check_function(parts[j].as_str()) {
                return true;
            }
            j += 1;
        }
        return false;
    }
    if tc[0] == '!' {
        let n = tc.len();
        let rest = slice_string(tc.as_slice(), 1, n);
        assert(rest@ =~= t@.skip(1));
        assert(seq![rest@].skip(1) =~= Seq::<Seq<char>>::empty());
        assert(!any_status_check(Seq::<Seq<char>>::empty(), bound@));
        assert(status_check(expression@) == any_status_check(seq![rest@], bound@));
        assert(rest@.len() < expression@.len());
        assert(any_status_check(seq![rest@], bound@) == status_check(rest@));
        return uses_status_check_function(rest.as_str());
    }
    match parse_function_call(t.as_str()) {
        None => false,
        Some((name, args)) => {
            let targs = trim_str(args.as_str());
            let tac = chars_of(targs.as_str());
            let is_status = str_eq(name.as_str(), "success") || str_eq(name.as_str(), "failure")
                || str_eq(name.as_str(), "always") || str_eq(name.as_str(), "cancelled");
            if is_status && tac.len() == 0 {
                return true;
            }
            let pieces = split_function_args(args.as_str());
            let ghost ps = crate::text::views(pieces@);
            proof {
                reveal_strlit(",");
                crate::text::lemma_first_index_exists(t@, '(');
                assert(args@.len() < t@.len());
                lemma_split_top_shorter(args@, ","@);
                assert forall|i: int| 0 <= i < pieces@.len() implies (#[trigger] pieces@[i])@.len() < expression@.len() by {
                    assert(ps.len() == split_top(args@, ","@).len());
                    let p = split_top(args@, ","@)[i];
                    assert(ps[i] == pieces@[i]@);
                    assert(ps[i] == trim(p));
                    lemma_trim_len(p);
                }
            }
            let mut j: usize = 0;
            assert(ps.skip(0) =~= ps);
            assert(status_check(expression@) == any_status_check(ps, bound@));
            while j < pieces.len()
                invariant
                    status_check(expression@) == any_status_check(ps, bound@),
                    j <= pieces.len(),
                    ps == crate::text::views(pieces@),
                    bound@ == expression@.len(),
                    forall|i: int| 0 <= i < pieces@.len() ==> (#[trigger] pieces@[i])@.len() < expression@.len(),
                    any_status_check(ps, bound@) == any_status_check(ps.skip(j as int), bound@),
                decreases pieces.len() - j,
            {
                assert(ps.skip(j as int)[0] == pieces@[j as int]@);
                assert(ps.skip(j as int).skip(1) =~= ps.skip(j + 1));
                assert(pieces@[j as int]@.len() < expression@.len());
                if uses_status_check_function(pieces[j].as_str()) {
                    return true;
                }
                j += 1;
            }
            false
        },
    }
}

/// The SHA reported for a local run.
pub const ZERO_SHA: &'static str = "0000000000000000000000000000000000000000";

/// A value of a map of strings, or the empty text.
pub open spec fn value_or_empty(m: Map<Seq<char>, Seq<char>>, k: Seq<char>) -> Seq<char> {
    if m.contains_key(k) {
        m[k]
    } else {
        Seq::empty()
    }
}

/// `needs.<job>.outputs.<name>` and `needs.<job>.result`: the output, or the recorded result
/// (success when none was recorded); empty for an unknown job or any other shape.
pub open spec fn needs_ref_spec(trimmed: Seq<char>, needs: Map<Seq<char>, Map<Seq<char>, Seq<char>>>) -> Seq<char> {
    let parts = crate::text::split_char(trimmed, '.');
    if parts.len() < 2 || !needs.contains_key(parts[1]) {
        Seq::empty()
    } else {
        let outs = needs[parts[1]];
        if parts.len() >= 4 && parts[2] == "outputs"@ {
            value_or_empty(outs, parts[3])
        } else if parts.len() >= 3 && parts[2] == "result"@ {
            if outs.contains_key("__result"@) {
                outs["__result"@]
            } else {
                "success"@
            }
        } else {
            Seq::empty()
        }
    }
}

fn get_or(m: &StrMap<String>, k: &str, default: &str) -> (r: String)
    requires
        m.wf(),
    ensures
        r@ == (if text_map(*m).contains_key(k@) { text_map(*m)[k@] } else { default@ }),
{
    match m.get(k) {
        Some(v) => v.clone(),
        None => owned(default),
    }
}

/// Resolves a `needs.*` reference.
pub fn resolve_needs_ref(trimmed: &str, needs: &StrMap<StrMap<String>>) -> (r: String)
    requires
        nested_wf(*needs),
    ensures
        r@ == needs_ref_spec(trimmed@, nested_text_map(*needs)),
{
    proof {
        reveal_strlit("outputs");
        reveal_strlit("result");
        reveal_strlit("");
        assert(""@ =~= Seq::<char>::empty());
    }
    let parts = crate::text::split_on_char(trimmed, '.');
    let ghost ps = crate::text::views(parts@);
    if parts.len() < 2 {
        return String::new();
    }
    assert(ps[1] == parts@[1]@);
    let job_outputs = match needs.get(parts[1].as_str()) {
        Some(m) => m,
        None => {
            return String::new();
        },
    };
    proof {
        let j = needs.index_of(parts@[1]@);
        needs.lemma_index_of(j);
    }
    if parts.len() >= 4 && str_eq(parts[2].as_str(), "outputs") {
        assert(ps[2] == parts@[2]@ && ps[3] == parts@[3]@);
        return get_or(job_outputs, parts[3].as_str(), "");
    }
    if parts.len() >= 3 && str_eq(parts[2].as_str(), "result") {
        assert(ps[2] == parts@[2]@);
        proof {
            if parts.len() >= 4 {
                assert(ps[2] != "outputs"@);
            }
        }
        return get_or(job_outputs, "__result", "success");
    }
    proof {
        if parts.len() >= 3 {
            assert(ps[2] == parts@[2]@);
        }
    }
    String::new()
}

/// A fixed context value: runner fields, strategy metadata, and the values a local run
/// reports for `github.*`.
pub open spec fn fixed_ref(t: Seq<char>, c: ExpressionContext) -> Option<Seq<char>> {
    if t == "runner.os"@ {
        Some(c.runner.os@)
    } else if t == "runner.arch"@ {
        Some(c.runner.arch@)
    } else if t == "strategy.job-total"@ {
        Some(if text_map(c.matrix).contains_key("__job_total"@) { text_map(c.matrix)["__job_total"@] } else { "1"@ })
    } else if t == "strategy.job-index"@ {
        Some(if text_map(c.matrix).contains_key("__job_index"@) { text_map(c.matrix)["__job_index"@] } else { "0"@ })
    } else if t == "github.run_id"@ || t == "github.run_number"@ {
        Some("1"@)
    } else if t == "github.sha"@ || t == "github.head_sha"@ {
        Some(ZERO_SHA@)
    } else if t == "github.ref_name"@ || t == "github.head_ref"@ {
        Some("main"@)
    } else if t == "github.repository"@ {
        Some("local/repo"@)
    } else if t == "github.actor"@ {
        Some("local"@)
    } else if t == "github.event.pull_request.number"@ || t == "github.event.pull_request.title"@
        || t == "github.event.pull_request.user.login"@ {
        Some(Seq::empty())
    } else if t == "github.event.pull_request.draft"@ {
        Some("false"@)
    } else if t == "github.event.pull_request.author_association"@ {
        Some("OWNER"@)
    } else if t == "github.event.pull_request.labels.*.name"@ {
        Some("[]"@)
    } else {
        None
    }
}

/// What a context reference resolves to: a fixed value; a `matrix.`, `secrets.`, `vars.`,
/// `inputs.` or `env.` lookup (empty when missing); empty for `steps.`; a `needs.` reference;
/// otherwise nothing.
pub open spec fn context_ref_spec(t: Seq<char>, c: ExpressionContext) -> Option<Seq<char>> {
    match fixed_ref(t, c) {
        Some(v) => Some(v),
        None => if is_prefix("matrix."@, t) {
            Some(value_or_empty(text_map(c.matrix), t.skip(7)))
        } else if is_prefix("secrets."@, t) {
            Some(value_or_empty(text_map(c.secrets), t.skip(8)))
        } else if is_prefix("vars."@, t) {
            Some(value_or_empty(text_map(c.vars), t.skip(5)))
        } else if is_prefix("inputs."@, t) {
            Some(value_or_empty(text_map(c.inputs), t.skip(7)))
        } else if is_prefix("env."@, t) {
            Some(value_or_empty(text_map(c.env), t.skip(4)))
        } else if is_prefix("steps."@, t) {
            Some(Seq::empty())
        } else if is_prefix("needs."@, t) {
            Some(needs_ref_spec(t, nested_text_map(c.needs)))
        } else {
            None
        },
    }
}

fn fixed_ref_exec(t: &str, c: &ExpressionContext) -> (r: Option<String>)
    requires
        c.wf(),
    ensures
        match r {
            Some(v) => fixed_ref(t@, *c) == Some(v@),
            None => fixed_ref(t@, *c) is None,
        },
{
    if str_eq(t, "runner.os") {
        Some(c.runner.os.clone())
    } else if str_eq(t, "runner.arch") {
        Some(c.runner.arch.clone())
    } else if str_eq(t, "strategy.job-total") {
        Some(get_or(&c.matrix, "__job_total", "1"))
    } else if str_eq(t, "strategy.job-index") {
        Some(get_or(&c.matrix, "__job_index", "0"))
    } else if str_eq(t, "github.run_id") || str_eq(t, "github.run_number") {
        Some(owned("1"))
    } else if str_eq(t, "github.sha") || str_eq(t, "github.head_sha") {
        Some(owned(ZERO_SHA))
    } else if str_eq(t, "github.ref_name") || str_eq(t, "github.head_ref") {
        Some(owned("main"))
    } else if str_eq(t, "github.repository") {
        Some(owned("local/repo"))
    } else if str_eq(t, "github.actor") {
        Some(owned("local"))
    } else if str_eq(t, "github.event.pull_request.number") || str_eq(t, "github.event.pull_request.title")
        || str_eq(t, "github.event.pull_request.user.login") {
        Some(String::new())
    } else if str_eq(t, "github.event.pull_request.draft") {
        Some(owned("false"))
    } else if str_eq(t, "github.event.pull_request.author_association") {
        Some(owned("OWNER"))
    } else if str_eq(t, "github.event.pull_request.labels.*.name") {
        Some(owned("[]"))
    } else {
        None
    }
}

fn lookup_after(t: &str, prefix: &str, m: &StrMap<String>) -> (r: Option<String>)
    requires
        m.wf(),
    ensures
        r is Some <==> is_prefix(prefix@, t@),
        r matches Some(v) ==> v@ == value_or_empty(text_map(*m), t@.skip(prefix@.len() as int)),
{
    proof {
        reveal_strlit("");
        assert(""@ =~= Seq::<char>::empty());
    }
    match crate::text::strip_prefix(t, prefix) {
        Some(key) => Some(get_or(m, key.as_str(), "")),
        None => None,
    }
}

/// Resolves a context reference such as `matrix.os` or `needs.build.result`.
pub fn resolve_context_ref(trimmed: &str, context: &ExpressionContext) -> (r: Option<String>)
    requires
        context.wf(),
    ensures
        match r {
            Some(v) => context_ref_spec(trimmed@, *context) == Some(v@),
            None => context_ref_spec(trimmed@, *context) is None,
        },
{
    proof {
        reveal_strlit("matrix.");
        reveal_strlit("secrets.");
        reveal_strlit("vars.");
        reveal_strlit("inputs.");
        reveal_strlit("env.");
    }
    if let Some(v) = fixed_ref_exec(trimmed, context) {
        return Some(v);
    }
    if let Some(v) = lookup_after(trimmed, "matrix.", &context.matrix) {
        return Some(v);
    }
    if let Some(v) = lookup_after(trimmed, "secrets.", &context.secrets) {
        return Some(v);
    }
    if let Some(v) = lookup_after(trimmed, "vars.", &context.vars) {
        return Some(v);
    }
    if let Some(v) = lookup_after(trimmed, "inputs.", &context.inputs) {
        return Some(v);
    }
    if let Some(v) = lookup_after(trimmed, "env.", &context.env) {
        return Some(v);
    }
    if crate::text::starts_with(trimmed, "steps.") {
        return Some(String::new());
    }
    if crate::text::starts_with(trimmed, "needs.") {
        return Some(resolve_needs_ref(trimmed, &context.needs));
    }
    None
}

} // verus!
