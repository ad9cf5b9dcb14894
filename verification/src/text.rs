use vstd::prelude::*;
use vstd::string::StringExecFns;

verus! {

// ---------------------------------------------------------------------------
// Specifications over character sequences
// ---------------------------------------------------------------------------

/// `p` is a prefix of `s`.
pub open spec fn is_prefix(p: Seq<char>, s: Seq<char>) -> bool {
    p.len() <= s.len() && s.subrange(0, p.len() as int) == p
}

/// `p` is a suffix of `s`.
pub open spec fn is_suffix(p: Seq<char>, s: Seq<char>) -> bool {
    p.len() <= s.len() && s.subrange(s.len() - p.len(), s.len() as int) == p
}

/// `p` occurs in `s` starting at index `i`.
pub open spec fn occurs_at(s: Seq<char>, p: Seq<char>, i: int) -> bool {
    0 <= i && i + p.len() <= s.len() && s.subrange(i, i + p.len()) == p
}

/// `p` occurs somewhere in `s`.
pub open spec fn contains_seq(s: Seq<char>, p: Seq<char>) -> bool {
    exists|i: int| occurs_at(s, p, i)
}

/// `i` is the first position at which `p` occurs in `s`.
pub open spec fn first_occurrence(s: Seq<char>, p: Seq<char>, i: int) -> bool {
    occurs_at(s, p, i) && forall|j: int| 0 <= j < i ==> !occurs_at(s, p, j)
}

/// `i` is the first index of the character `c` in `s`.
pub open spec fn first_index_of(s: Seq<char>, c: char, i: int) -> bool {
    0 <= i < s.len() && s[i] == c && forall|j: int| 0 <= j < i ==> s[j] != c
}

/// `i` is the last index of the character `c` in `s`.
pub open spec fn last_index_of(s: Seq<char>, c: char, i: int) -> bool {
    0 <= i < s.len() && s[i] == c && forall|j: int| i < j < s.len() ==> s[j] != c
}

/// The character is whitespace as `char::is_whitespace` defines it (Unicode White_Space).
pub open spec fn is_ws(c: char) -> bool {
    ||| c == '\t' || c == '\n' || c == '\u{b}' || c == '\u{c}' || c == '\r' || c == ' '
    ||| c == '\u{85}' || c == '\u{a0}' || c == '\u{1680}'
    ||| ('\u{2000}' <= c && c <= '\u{200a}')
    ||| c == '\u{2028}' || c == '\u{2029}' || c == '\u{202f}' || c == '\u{205f}' || c == '\u{3000}'
}

pub open spec fn is_ascii_digit(c: char) -> bool {
    '0' <= c && c <= '9'
}

pub open spec fn is_ascii_alpha(c: char) -> bool {
    ('a' <= c && c <= 'z') || ('A' <= c && c <= 'Z')
}

pub open spec fn is_ascii_alnum(c: char) -> bool {
    is_ascii_digit(c) || is_ascii_alpha(c)
}

pub open spec fn is_ascii_hex(c: char) -> bool {
    is_ascii_digit(c) || ('a' <= c && c <= 'f') || ('A' <= c && c <= 'F')
}

/// ASCII lowercase of one character (`char::to_ascii_lowercase`).
pub open spec fn lower_char(c: char) -> char {
    if 'A' <= c && c <= 'Z' {
        ((c as u32) + 32) as char
    } else {
        c
    }
}

/// ASCII lowercase of a sequence (`str::to_ascii_lowercase`).
pub open spec fn ascii_lower(s: Seq<char>) -> Seq<char> {
    s.map_values(|c: char| lower_char(c))
}

/// Number of leading whitespace characters.
pub open spec fn ws_prefix_len(s: Seq<char>) -> nat
    decreases s.len(),
{
    if s.len() > 0 && is_ws(s[0]) {
        1 + ws_prefix_len(s.skip(1))
    } else {
        0
    }
}

/// Number of trailing whitespace characters.
pub open spec fn ws_suffix_len(s: Seq<char>) -> nat
    decreases s.len(),
{
    if s.len() > 0 && is_ws(s.last()) {
        1 + ws_suffix_len(s.drop_last())
    } else {
        0
    }
}

/// `s` with leading whitespace removed (`str::trim_start`).
pub open spec fn trim_start(s: Seq<char>) -> Seq<char> {
    s.skip(ws_prefix_len(s) as int)
}

/// `s` with trailing whitespace removed (`str::trim_end`).
pub open spec fn trim_end(s: Seq<char>) -> Seq<char> {
    s.take(s.len() - ws_suffix_len(s))
}

/// `s` with leading and trailing whitespace removed (`str::trim`).
pub open spec fn trim(s: Seq<char>) -> Seq<char> {
    trim_end(trim_start(s))
}

/// The pieces of `s` between occurrences of `c` (`str::split` with a char).
pub open spec fn split_char(s: Seq<char>, c: char) -> Seq<Seq<char>>
    decreases s.len(),
{
    if exists|i: int| first_index_of(s, c, i) {
        let i = choose|i: int| first_index_of(s, c, i);
        seq![s.take(i)] + split_char(s.skip(i + 1), c)
    } else {
        seq![s]
    }
}

/// Leftmost, non-overlapping replacement of `from` by `to` (`str::replace`).
pub open spec fn replace_all(s: Seq<char>, from: Seq<char>, to: Seq<char>) -> Seq<char>
    recommends
        from.len() > 0,
    decreases s.len(),
{
    if from.len() == 0 || s.len() < from.len() {
        s
    } else if is_prefix(from, s) {
        to + replace_all(s.skip(from.len() as int), from, to)
    } else {
        seq![s[0]] + replace_all(s.skip(1), from, to)
    }
}

/// Joins pieces with a separator (`[String]::join`).
pub open spec fn join(pieces: Seq<Seq<char>>, sep: Seq<char>) -> Seq<char>
    decreases pieces.len(),
{
    if pieces.len() == 0 {
        Seq::empty()
    } else if pieces.len() == 1 {
        pieces[0]
    } else {
        join(pieces.drop_last(), sep) + sep + pieces.last()
    }
}

/// Single-quotes a value for a POSIX shell, escaping embedded quotes.
pub open spec fn shell_quoted(s: Seq<char>) -> Seq<char> {
    seq!['\''] + replace_all(s, seq!['\''], "'\\''"@) + seq!['\'']
}

/// The views of a vector of strings.
pub open spec fn views(v: Seq<String>) -> Seq<Seq<char>> {
    v.map_values(|s: String| s@)
}

// ---------------------------------------------------------------------------
// Lemmas
// ---------------------------------------------------------------------------

pub proof fn lemma_trim_start_no_ws(s: Seq<char>)
    ensures
        trim_start(s).len() > 0 ==> !is_ws(trim_start(s)[0]),
        ws_prefix_len(s) <= s.len(),
        forall|j: int| 0 <= j < ws_prefix_len(s) ==> is_ws(#[trigger] s[j]),
    decreases s.len(),
{
    if s.len() > 0 && is_ws(s[0]) {
        lemma_trim_start_no_ws(s.skip(1));
        assert forall|j: int| 0 <= j < ws_prefix_len(s) implies is_ws(#[trigger] s[j]) by {
            if j > 0 {
                assert(s[j] == s.skip(1)[j - 1]);
            }
        }
        assert(s.skip(1).skip(ws_prefix_len(s.skip(1)) as int) =~= s.skip(ws_prefix_len(s) as int));
    }
}

pub proof fn lemma_trim_end_no_ws(s: Seq<char>)
    ensures
        trim_end(s).len() > 0 ==> !is_ws(trim_end(s).last()),
        ws_suffix_len(s) <= s.len(),
        forall|j: int| s.len() - ws_suffix_len(s) <= j < s.len() ==> is_ws(#[trigger] s[j]),
    decreases s.len(),
{
    if s.len() > 0 && is_ws(s.last()) {
        lemma_trim_end_no_ws(s.drop_last());
        assert forall|j: int| s.len() - ws_suffix_len(s) <= j < s.len() implies is_ws(
            #[trigger] s[j],
        ) by {
            if j < s.len() - 1 {
                assert(s[j] == s.drop_last()[j]);
            }
        }
        assert(s.drop_last().take(s.drop_last().len() - ws_suffix_len(s.drop_last())) =~= s.take(
            s.len() - ws_suffix_len(s),
        ));
    }
}

// ---------------------------------------------------------------------------
// Wrappers over std
// ---------------------------------------------------------------------------

/// `String::push`: appends one character.
#[verifier::external_body]
pub fn push_char(s: &mut String, c: char)
    ensures
        final(s)@ == old(s)@.push(c),
{
    s.push(c);
}

// ---------------------------------------------------------------------------
// Executable helpers
// ---------------------------------------------------------------------------

/// The characters of a string slice, in order.
pub fn chars_of(s: &str) -> (v: Vec<char>)
    ensures
        v@ == s@,
{
    let mut v: Vec<char> = Vec::new();
    for c in it: s.chars()
        invariant
            v@ == it.seq().take(it.index() as int),
    {
        v.push(c);
    }
    v
}

/// Builds a string from characters.
pub fn from_chars(v: &[char]) -> (s: String)
    ensures
        s@ == v@,
{
    let mut s = String::new();
    let mut i: usize = 0;
    while i < v.len()
        invariant
            i <= v.len(),
            s@ == v@.take(i as int),
        decreases v.len() - i,
    {
        push_char(&mut s, v[i]);
        i += 1;
        assert(s@ =~= v@.take(i as int));
    }
    assert(v@.take(v.len() as int) =~= v@);
    s
}

/// An owned copy of a string slice.
pub fn owned(s: &str) -> (r: String)
    ensures
        r@ == s@,
{
    s.to_owned()
}

/// Concatenation of two slices.
pub fn cat(a: &str, b: &str) -> (r: String)
    ensures
        r@ == a@ + b@,
{
    let mut r = a.to_owned();
    r.append(b);
    r
}

/// Concatenation of three slices.
pub fn cat3(a: &str, b: &str, c: &str) -> (r: String)
    ensures
        r@ == a@ + b@ + c@,
{
    let mut r = a.to_owned();
    r.append(b);
    r.append(c);
    r
}

/// Concatenation of four slices.
pub fn cat4(a: &str, b: &str, c: &str, d: &str) -> (r: String)
    ensures
        r@ == a@ + b@ + c@ + d@,
{
    let mut r = a.to_owned();
    r.append(b);
    r.append(c);
    r.append(d);
    r
}

/// Concatenation of five slices.
pub fn cat5(a: &str, b: &str, c: &str, d: &str, e: &str) -> (r: String)
    ensures
        r@ == a@ + b@ + c@ + d@ + e@,
{
    let mut r = a.to_owned();
    r.append(b);
    r.append(c);
    r.append(d);
    r.append(e);
    r
}

/// Equality of two character slices.
pub fn chars_eq(a: &[char], b: &[char]) -> (r: bool)
    ensures
        r == (a@ == b@),
{
    if a.len() != b.len() {
        return false;
    }
    let mut i: usize = 0;
    while i < a.len()
        invariant
            a.len() == b.len(),
            i <= a.len(),
            forall|j: int| 0 <= j < i ==> a@[j] == b@[j],
        decreases a.len() - i,
    {
        if a[i] != b[i] {
            return false;
        }
        i += 1;
    }
    assert(a@ =~= b@);
    true
}

/// Equality of two string slices.
pub fn str_eq(a: &str, b: &str) -> (r: bool)
    ensures
        r == (a@ == b@),
{
    let x = chars_of(a);
    let y = chars_of(b);
    chars_eq(x.as_slice(), y.as_slice())
}

/// `p` occurs in `s` at index `i`.
pub fn chars_occur_at(s: &[char], p: &[char], i: usize) -> (r: bool)
    ensures
        r == occurs_at(s@, p@, i as int),
{
    if i > s.len() || p.len() > s.len() - i {
        return false;
    }
    let mut k: usize = 0;
    while k < p.len()
        invariant
            i + p.len() <= s.len(),
            k <= p.len(),
            forall|j: int| 0 <= j < k ==> s@[i + j] == p@[j],
        decreases p.len() - k,
    {
        if s[i + k] != p[k] {
            assert(s@.subrange(i as int, i + p.len())[k as int] != p@[k as int]);
            return false;
        }
        k += 1;
    }
    assert(s@.subrange(i as int, i + p.len()) =~= p@);
    true
}

/// First occurrence of `p` in `s`.
pub fn find_chars(s: &[char], p: &[char]) -> (r: Option<usize>)
    ensures
        r matches Some(i) ==> first_occurrence(s@, p@, i as int),
        r is None ==> !contains_seq(s@, p@),
{
    let mut i: usize = 0;
    while i < s.len()
        invariant
            i <= s.len(),
            forall|j: int| 0 <= j < i ==> !occurs_at(s@, p@, j),
        decreases s.len() - i,
    {
        if chars_occur_at(s, p, i) {
            return Some(i);
        }
        i += 1;
    }
    if chars_occur_at(s, p, s.len()) {
        return Some(s.len());
    }
    assert forall|j: int| !occurs_at(s@, p@, j) by {
        if j > s.len() {
        }
    }
    None
}

/// `p` is a prefix of `s`.
pub fn starts_with(s: &str, p: &str) -> (r: bool)
    ensures
        r == is_prefix(p@, s@),
{
    let x = chars_of(s);
    let y = chars_of(p);
    chars_occur_at(x.as_slice(), y.as_slice(), 0)
}

/// `p` is a suffix of `s`.
pub fn ends_with(s: &str, p: &str) -> (r: bool)
    ensures
        r == is_suffix(p@, s@),
{
    let x = chars_of(s);
    let y = chars_of(p);
    if y.len() > x.len() {
        return false;
    }
    chars_occur_at(x.as_slice(), y.as_slice(), x.len() - y.len())
}

/// `p` occurs in `s`.
pub fn contains(s: &str, p: &str) -> (r: bool)
    ensures
        r == contains_seq(s@, p@),
{
    let x = chars_of(s);
    let y = chars_of(p);
    find_chars(x.as_slice(), y.as_slice()).is_some()
}

/// The character `c` occurs in `s`.
pub fn contains_char(s: &[char], c: char) -> (r: Option<usize>)
    ensures
        r matches Some(i) ==> first_index_of(s@, c, i as int),
        r is None ==> forall|j: int| 0 <= j < s.len() ==> s@[j] != c,
{
    let mut i: usize = 0;
    while i < s.len()
        invariant
            i <= s.len(),
            forall|j: int| 0 <= j < i ==> s@[j] != c,
        decreases s.len() - i,
    {
        if s[i] == c {
            return Some(i);
        }
        i += 1;
    }
    None
}

/// Last index of `c` in `s`.
pub fn last_char_index(s: &[char], c: char) -> (r: Option<usize>)
    ensures
        r matches Some(i) ==> last_index_of(s@, c, i as int),
        r is None ==> forall|j: int| 0 <= j < s.len() ==> s@[j] != c,
{
    let mut i: usize = s.len();
    while i > 0
        invariant
            i <= s.len(),
            forall|j: int| i <= j < s.len() ==> s@[j] != c,
        decreases i,
    {
        if s[i - 1] == c {
            return Some(i - 1);
        }
        i -= 1;
    }
    None
}

/// A sub-slice as a string.
pub fn slice_string(s: &[char], from: usize, to: usize) -> (r: String)
    requires
        from <= to <= s.len(),
    ensures
        r@ == s@.subrange(from as int, to as int),
{
    let mut r = String::new();
    let mut i = from;
    while i < to
        invariant
            from <= i <= to <= s.len(),
            r@ == s@.subrange(from as int, i as int),
        decreases to - i,
    {
        push_char(&mut r, s[i]);
        i += 1;
        assert(r@ =~= s@.subrange(from as int, i as int));
    }
    r
}

/// A sub-slice as a vector.
pub fn slice_vec(s: &[char], from: usize, to: usize) -> (r: Vec<char>)
    requires
        from <= to <= s.len(),
    ensures
        r@ == s@.subrange(from as int, to as int),
{
    let mut r: Vec<char> = Vec::new();
    let mut i = from;
    while i < to
        invariant
            from <= i <= to <= s.len(),
            r@ == s@.subrange(from as int, i as int),
        decreases to - i,
    {
        r.push(s[i]);
        i += 1;
        assert(r@ =~= s@.subrange(from as int, i as int));
    }
    r
}

/// `s` without the prefix `p`, when `p` is a prefix.
pub fn strip_prefix(s: &str, p: &str) -> (r: Option<String>)
    ensures
        r is Some <==> is_prefix(p@, s@),
        r matches Some(x) ==> x@ == s@.skip(p@.len() as int),
{
    let x = chars_of(s);
    let y = chars_of(p);
    if chars_occur_at(x.as_slice(), y.as_slice(), 0) {
        Some(slice_string(x.as_slice(), y.len(), x.len()))
    } else {
        None
    }
}

/// `s` without the suffix `p`, when `p` is a suffix.
pub fn strip_suffix(s: &str, p: &str) -> (r: Option<String>)
    ensures
        r is Some <==> is_suffix(p@, s@),
        r matches Some(x) ==> x@ == s@.take(s@.len() - p@.len()),
{
    let x = chars_of(s);
    let y = chars_of(p);
    if y.len() > x.len() {
        return None;
    }
    if chars_occur_at(x.as_slice(), y.as_slice(), x.len() - y.len()) {
        Some(slice_string(x.as_slice(), 0, x.len() - y.len()))
    } else {
        None
    }
}

/// Whitespace test (`char::is_whitespace`).
pub fn char_is_ws(c: char) -> (r: bool)
    ensures
        r == is_ws(c),
{
    c == '\t' || c == '\n' || c == '\u{b}' || c == '\u{c}' || c == '\r' || c == ' ' || c
        == '\u{85}' || c == '\u{a0}' || c == '\u{1680}' || ('\u{2000}' <= c && c <= '\u{200a}')
        || c == '\u{2028}' || c == '\u{2029}' || c == '\u{202f}' || c == '\u{205f}' || c
        == '\u{3000}'
}

/// ASCII digit test.
pub fn char_is_digit(c: char) -> (r: bool)
    ensures
        r == is_ascii_digit(c),
{
    '0' <= c && c <= '9'
}

/// ASCII alphanumeric test (`char::is_ascii_alphanumeric`).
pub fn char_is_alnum(c: char) -> (r: bool)
    ensures
        r == is_ascii_alnum(c),
{
    ('0' <= c && c <= '9') || ('a' <= c && c <= 'z') || ('A' <= c && c <= 'Z')
}

/// ASCII lowercase of one character.
pub fn char_lower(c: char) -> (r: char)
    ensures
        r == lower_char(c),
{
    if 'A' <= c && c <= 'Z' {
        let code: u8 = (c as u8) + 32;
        code as char
    } else {
        c
    }
}

/// ASCII lowercase of a string (`str::to_ascii_lowercase`).
pub fn to_ascii_lower(s: &str) -> (r: String)
    ensures
        r@ == ascii_lower(s@),
{
    let x = chars_of(s);
    let mut r = String::new();
    let mut i: usize = 0;
    while i < x.len()
        invariant
            i <= x.len(),
            x@ == s@,
            r@ == ascii_lower(s@.take(i as int)),
        decreases x.len() - i,
    {
        let c = char_lower(x[i]);
        push_char(&mut r, c);
        i += 1;
        assert(r@ =~= ascii_lower(s@.take(i as int)));
    }
    assert(s@.take(x.len() as int) =~= s@);
    r
}

/// Removes leading and trailing whitespace (`str::trim`).
pub fn trim_str(s: &str) -> (r: String)
    ensures
        r@ == trim(s@),
{
    let x = chars_of(s);
    let mut start: usize = 0;
    assert(s@.skip(0) =~= s@);
    while start < x.len() && char_is_ws(x[start])
        invariant
            x@ == s@,
            start <= x.len(),
            ws_prefix_len(s@) == start + ws_prefix_len(s@.skip(start as int)),
        decreases x.len() - start,
    {
        assert(s@.skip(start as int).skip(1) =~= s@.skip(start + 1));
        start += 1;
    }
    proof {
        lemma_ws_prefix_zero_after(s@, start as int);
    }
    let mut end: usize = x.len();
    let ghost t = trim_start(s@);
    assert(t =~= s@.skip(start as int));
    assert(t.take(end - start) =~= t);
    while end > start && char_is_ws(x[end - 1])
        invariant
            x@ == s@,
            start <= end <= x.len(),
            t == s@.skip(start as int),
            ws_suffix_len(t) == (x.len() - end) + ws_suffix_len(t.take(end - start)),
        decreases end,
    {
        assert(t.take(end - start).drop_last() =~= t.take(end - start - 1));
        end -= 1;
    }
    proof {
        let u = t.take(end - start);
        assert(u.len() == 0 || !is_ws(u.last()));
        assert(ws_suffix_len(u) == 0);
        assert(t.take(t.len() - ws_suffix_len(t)) =~= s@.subrange(start as int, end as int));
    }
    slice_string(x.as_slice(), start, end)
}

/// `s` without trailing whitespace.
pub fn trim_end_str(s: &str) -> (r: String)
    ensures
        r@ == trim_end(s@),
{
    let x = chars_of(s);
    let mut end: usize = x.len();
    assert(s@.take(end as int) =~= s@);
    while end > 0 && char_is_ws(x[end - 1])
        invariant
            x@ == s@,
            end <= x.len(),
            ws_suffix_len(s@) == (x.len() - end) + ws_suffix_len(s@.take(end as int)),
        decreases end,
    {
        assert(s@.take(end as int).drop_last() =~= s@.take(end - 1));
        end -= 1;
    }
    proof {
        let u = s@.take(end as int);
        assert(u.len() == 0 || !is_ws(u.last()));
        assert(ws_suffix_len(u) == 0);
        assert(s@.take(s@.len() - ws_suffix_len(s@)) =~= s@.subrange(0, end as int));
    }
    slice_string(x.as_slice(), 0, end)
}

proof fn lemma_ws_prefix_zero_after(s: Seq<char>, start: int)
    requires
        0 <= start <= s.len(),
        ws_prefix_len(s) == start + ws_prefix_len(s.skip(start)),
        start == s.len() || !is_ws(s[start]),
    ensures
        ws_prefix_len(s) == start,
{
    let t = s.skip(start);
    if t.len() > 0 {
        assert(t[0] == s[start]);
    }
}

/// Replaces every non-overlapping occurrence of `from` by `to`, left to right (`str::replace`).
pub fn replace_str(s: &str, from: &str, to: &str) -> (r: String)
    requires
        from@.len() > 0,
    ensures
        r@ == replace_all(s@, from@, to@),
{
    let x = chars_of(s);
    let f = chars_of(from);
    let mut r = String::new();
    let mut i: usize = 0;
    assert(s@.skip(0) =~= s@);
    while i < x.len()
        invariant
            x@ == s@,
            f@ == from@,
            f@.len() > 0,
            i <= x.len(),
            r@ + replace_all(s@.skip(i as int), from@, to@) == replace_all(s@, from@, to@),
        decreases x.len() - i,
    {
        let ghost rest = s@.skip(i as int);
        if chars_occur_at(x.as_slice(), f.as_slice(), i) {
            proof {
                assert(rest.subrange(0, f@.len() as int) =~= s@.subrange(i as int, i + f@.len()));
                assert(rest.skip(f@.len() as int) =~= s@.skip(i + f@.len()));
            }
            r.append(to);
            i += f.len();
            proof {
                assert(r@ + replace_all(s@.skip(i as int), from@, to@) =~= replace_all(s@, from@, to@));
            }
        } else {
            proof {
                if rest.len() >= f@.len() {
                    assert(rest.subrange(0, f@.len() as int) =~= s@.subrange(i as int, i + f@.len()));
                }
                assert(rest.skip(1) =~= s@.skip(i + 1));
                assert(rest[0] == x@[i as int]);
                if rest.len() < f@.len() {
                    // the tail is copied unchanged
                    lemma_replace_short(rest, from@, to@);
                }
            }
            push_char(&mut r, x[i]);
            i += 1;
            proof {
                assert(r@ + replace_all(s@.skip(i as int), from@, to@) =~= replace_all(s@, from@, to@));
            }
        }
    }
    assert(s@.skip(x.len() as int) =~= Seq::<char>::empty());
    r
}

proof fn lemma_replace_short(s: Seq<char>, from: Seq<char>, to: Seq<char>)
    requires
        s.len() < from.len(),
        s.len() > 0,
    ensures
        replace_all(s, from, to) == seq![s[0]] + replace_all(s.skip(1), from, to),
{
    assert(replace_all(s.skip(1), from, to) == s.skip(1));
    assert(seq![s[0]] + s.skip(1) =~= s);
}

/// Single-quotes a value for a POSIX shell.
pub fn shell_quote(s: &str) -> (r: String)
    ensures
        r@ == shell_quoted(s@),
{
    proof {
        reveal_strlit("'");
    }
    let q = replace_str(s, "'", "'\\''");
    assert("'"@ =~= seq!['\'']);
    let mut r = String::new();
    push_char(&mut r, '\'');
    r.append(q.as_str());
    push_char(&mut r, '\'');
    r
}

/// A copy of a vector of strings.
pub fn copy_strings(v: &Vec<String>) -> (r: Vec<String>)
    ensures
        r@ == v@,
{
    let mut r: Vec<String> = Vec::new();
    let mut i: usize = 0;
    while i < v.len()
        invariant
            i <= v.len(),
            r@ == v@.take(i as int),
        decreases v.len() - i,
    {
        r.push(v[i].clone());
        i += 1;
        assert(r@ =~= v@.take(i as int));
    }
    assert(v@.take(v.len() as int) =~= v@);
    r
}

/// Joins strings with a separator.
pub fn join_strings(v: &Vec<String>, sep: &str) -> (r: String)
    ensures
        r@ == join(views(v@), sep@),
{
    let mut r = String::new();
    let mut i: usize = 0;
    while i < v.len()
        invariant
            i <= v.len(),
            r@ == join(views(v@.take(i as int)), sep@),
        decreases v.len() - i,
    {
        proof {
            assert(views(v@.take(i + 1)).drop_last() =~= views(v@.take(i as int)));
        }
        if i > 0 {
            r.append(sep);
        }
        r.append(v[i].as_str());
        i += 1;
        proof {
            if i == 1 {
                assert(views(v@.take(1)) =~= seq![v@[0]@]);
                assert(r@ =~= v@[0]@);
            }
        }
    }
    assert(v@.take(v.len() as int) =~= v@);
    r
}

/// Splits `s` on every occurrence of `c`.
pub fn split_on_char(s: &str, c: char) -> (r: Vec<String>)
    ensures
        views(r@) == split_char(s@, c),
{
    let x = chars_of(s);
    let mut r: Vec<String> = Vec::new();
    let mut start: usize = 0;
    let mut i: usize = 0;
    assert(s@.skip(0) =~= s@);
    while i < x.len()
        invariant
            x@ == s@,
            start <= i <= x.len(),
            forall|j: int| start <= j < i ==> x@[j] != c,
            views(r@) + split_char(s@.skip(start as int), c) == split_char(s@, c),
        decreases x.len() - i,
    {
        if x[i] == c {
            let piece = slice_string(x.as_slice(), start, i);
            proof {
                let rest = s@.skip(start as int);
                assert(first_index_of(rest, c, i - start));
                lemma_first_index_unique(rest, c, i - start);
                assert(rest.take(i - start) =~= piece@);
                assert(rest.skip(i - start + 1) =~= s@.skip(i + 1));
                assert(views(r@.push(piece)) =~= views(r@).push(piece@));
            }
            r.push(piece);
            start = i + 1;
        }
        i += 1;
    }
    let last = slice_string(x.as_slice(), start, x.len());
    proof {
        let rest = s@.skip(start as int);
        assert(rest =~= last@);
        assert(!exists|k: int| first_index_of(rest, c, k));
        assert(views(r@.push(last)) =~= views(r@).push(last@));
    }
    r.push(last);
    r
}

pub proof fn lemma_first_index_unique(s: Seq<char>, c: char, i: int)
    requires
        first_index_of(s, c, i),
    ensures
        forall|k: int| first_index_of(s, c, k) ==> k == i,
{
}

} // verus!

verus! {

/// Splits at the first occurrence of `sep` (`str::split_once`).
pub fn split_once_str(s: &str, sep: &str) -> (r: Option<(String, String)>)
    ensures
        r is Some <==> contains_seq(s@, sep@),
        r matches Some(p) ==> exists|i: int|
            first_occurrence(s@, sep@, i) && p.0@ == s@.take(i) && p.1@ == s@.skip(i + sep@.len()),
{
    let x = chars_of(s);
    let y = chars_of(sep);
    match find_chars(x.as_slice(), y.as_slice()) {
        Some(i) => {
            assert(occurs_at(x@, y@, i as int));
            assert(i as int + y.len() as int <= x.len() as int);
            let a = slice_string(x.as_slice(), 0, i);
            let b = slice_string(x.as_slice(), i + y.len(), x.len());
            assert(a@ =~= s@.take(i as int));
            assert(b@ =~= s@.skip(i + sep@.len()));
            Some((a, b))
        },
        None => None,
    }
}

/// Splits at the first occurrence of the character `c` (`str::split_once`).
pub fn split_once_char(s: &str, c: char) -> (r: Option<(String, String)>)
    ensures
        r is Some <==> s@.contains(c),
        r matches Some(p) ==> exists|i: int|
            first_index_of(s@, c, i) && p.0@ == s@.take(i) && p.1@ == s@.skip(i + 1),
{
    let x = chars_of(s);
    match contains_char(x.as_slice(), c) {
        Some(i) => {
            assert(first_index_of(x@, c, i as int));
            let n = x.len();
            let a = slice_string(x.as_slice(), 0, i);
            let b = slice_string(x.as_slice(), i + 1, x.len());
            assert(a@ =~= s@.take(i as int));
            assert(b@ =~= s@.skip(i + 1));
            Some((a, b))
        },
        None => {
            assert(!s@.contains(c));
            None
        },
    }
}

/// Splits at the last occurrence of the character `c` (`str::rsplit_once`).
pub fn rsplit_once_char(s: &str, c: char) -> (r: Option<(String, String)>)
    ensures
        r is Some <==> s@.contains(c),
        r matches Some(p) ==> exists|i: int|
            last_index_of(s@, c, i) && p.0@ == s@.take(i) && p.1@ == s@.skip(i + 1),
{
    let x = chars_of(s);
    match last_char_index(x.as_slice(), c) {
        Some(i) => {
            assert(last_index_of(x@, c, i as int));
            let n = x.len();
            let a = slice_string(x.as_slice(), 0, i);
            let b = slice_string(x.as_slice(), i + 1, x.len());
            assert(a@ =~= s@.take(i as int));
            assert(b@ =~= s@.skip(i + 1));
            Some((a, b))
        },
        None => {
            assert(!s@.contains(c));
            None
        },
    }
}

/// Whitespace-separated words, accumulating the current word in `cur`.
pub open spec fn words_acc(s: Seq<char>, cur: Seq<char>) -> Seq<Seq<char>>
    decreases s.len(),
{
    if s.len() == 0 {
        if cur.len() > 0 {
            seq![cur]
        } else {
            Seq::empty()
        }
    } else if is_ws(s[0]) {
        (if cur.len() > 0 {
            seq![cur]
        } else {
            Seq::empty()
        }) + words_acc(s.skip(1), Seq::empty())
    } else {
        words_acc(s.skip(1), cur.push(s[0]))
    }
}

/// The whitespace-separated words of `s` (`str::split_whitespace`).
pub open spec fn words(s: Seq<char>) -> Seq<Seq<char>> {
    words_acc(s, Seq::empty())
}

/// Splits on runs of whitespace (`str::split_whitespace`).
pub fn split_whitespace(s: &str) -> (r: Vec<String>)
    ensures
        views(r@) == words(s@),
{
    let x = chars_of(s);
    let mut r: Vec<String> = Vec::new();
    let mut cur: Vec<char> = Vec::new();
    let mut i: usize = 0;
    assert(s@.skip(0) =~= s@);
    while i < x.len()
        invariant
            x@ == s@,
            i <= x.len(),
            views(r@) + words_acc(s@.skip(i as int), cur@) == words(s@),
        decreases x.len() - i,
    {
        let ghost rest = s@.skip(i as int);
        assert(rest[0] == x@[i as int]);
        assert(rest.skip(1) =~= s@.skip(i + 1));
        if char_is_ws(x[i]) {
            if cur.len() > 0 {
                let w = from_chars(cur.as_slice());
                proof {
                    assert(views(r@.push(w)) =~= views(r@).push(w@));
                    assert(words_acc(rest, cur@) == seq![cur@] + words_acc(
                        s@.skip(i + 1),
                        Seq::empty(),
                    ));
                    assert(views(r@.push(w)) + words_acc(s@.skip(i + 1), Seq::empty()) =~= views(r@)
                        + words_acc(rest, cur@));
                }
                r.push(w);
                cur = Vec::new();
                proof {
                    assert(views(r@) + words_acc(s@.skip(i + 1), cur@) =~= words(s@));
                }
            } else {
                proof {
                    assert(words_acc(rest, cur@) == Seq::<Seq<char>>::empty() + words_acc(
                        s@.skip(i + 1),
                        Seq::empty(),
                    ));
                    assert(cur@ =~= Seq::<char>::empty());
                    assert(views(r@) + words_acc(s@.skip(i + 1), cur@) =~= words(s@));
                }
            }
        } else {
            cur.push(x[i]);
        }
        i += 1;
    }
    if cur.len() > 0 {
        let w = from_chars(cur.as_slice());
        proof {
            assert(views(r@.push(w)) =~= views(r@).push(w@));
        }
        r.push(w);
    }
    proof {
        assert(views(r@) =~= words(s@));
    }
    r
}

} // verus!

verus! {

/// Path join as `Path::join` does it for `/`-separated paths: an absolute `rel` replaces the
/// base; otherwise `rel` is appended, with a `/` unless the base is empty or already ends in one.
pub open spec fn path_join(base: Seq<char>, rel: Seq<char>) -> Seq<char> {
    if rel.len() > 0 && rel[0] == '/' {
        rel
    } else if base.len() == 0 || base.last() == '/' {
        base + rel
    } else {
        base + seq!['/'] + rel
    }
}

/// Joins two path strings (`Path::join`).
pub fn join_path(base: &str, rel: &str) -> (r: String)
    ensures
        r@ == path_join(base@, rel@),
{
    let b = chars_of(base);
    let x = chars_of(rel);
    if x.len() > 0 && x[0] == '/' {
        return owned(rel);
    }
    if b.len() == 0 || b[b.len() - 1] == '/' {
        return cat(base, rel);
    }
    let mut r = owned(base);
    push_char(&mut r, '/');
    r.append(rel);
    r
}

} // verus!

verus! {

/// The number written by a sequence of decimal digits.
pub open spec fn digits_value(s: Seq<char>) -> nat
    decreases s.len(),
{
    if s.len() == 0 {
        0
    } else {
        digits_value(s.drop_last()) * 10 + ((s.last() as u32) - ('0' as u32)) as nat
    }
}

pub open spec fn all_digits(s: Seq<char>) -> bool {
    forall|i: int| 0 <= i < s.len() ==> is_ascii_digit(#[trigger] s[i])
}

/// The value of an unsigned decimal literal as Rust's unsigned `FromStr` reads it: an optional
/// `+`, then one or more ASCII digits; `None` for anything else.
pub open spec fn unsigned_literal(s: Seq<char>) -> Option<nat> {
    let d = if s.len() > 0 && s[0] == '+' {
        s.skip(1)
    } else {
        s
    };
    if d.len() > 0 && all_digits(d) {
        Some(digits_value(d))
    } else {
        None
    }
}

/// The value when it fits below `max`.
pub open spec fn bounded(v: Option<nat>, max: nat) -> Option<nat> {
    match v {
        Some(x) => if x <= max {
            Some(x)
        } else {
            None
        },
        None => None,
    }
}

pub proof fn lemma_digits_value_monotone(s: Seq<char>, i: int)
    requires
        0 <= i <= s.len(),
        all_digits(s),
    ensures
        digits_value(s.take(i)) <= digits_value(s),
    decreases s.len() - i,
{
    if i < s.len() {
        lemma_digits_value_monotone(s, i + 1);
        assert(s.take(i + 1).drop_last() =~= s.take(i));
        assert(is_ascii_digit(s[i]));
    } else {
        assert(s.take(i) =~= s);
    }
}

/// Parses an unsigned decimal number (`u64::from_str`).
pub fn parse_u64(s: &str) -> (r: Option<u64>)
    ensures
        match r {
            Some(v) => bounded(unsigned_literal(s@), u64::MAX as nat) == Some(v as nat),
            None => bounded(unsigned_literal(s@), u64::MAX as nat) is None,
        },
{
    let x = chars_of(s);
    let start: usize = if x.len() > 0 && x[0] == '+' {
        1
    } else {
        0
    };
    let ghost d = if s@.len() > 0 && s@[0] == '+' {
        s@.skip(1)
    } else {
        s@
    };
    assert(d =~= s@.skip(start as int));
    if start >= x.len() {
        return None;
    }
    let mut v: u64 = 0;
    let mut i: usize = start;
    while i < x.len()
        invariant
            x@ == s@,
            start <= i <= x.len(),
            d == s@.skip(start as int),
            d.len() > 0,
            unsigned_literal(s@) == (if all_digits(d) {
                Some(digits_value(d))
            } else {
                None
            }),
            forall|j: int| 0 <= j < i - start ==> is_ascii_digit(#[trigger] d[j]),
            v as nat == digits_value(d.take(i - start)),
        decreases x.len() - i,
    {
        let c = x[i];
        assert(d[i - start] == c);
        if !char_is_digit(c) {
            assert(!all_digits(d)) by {
                assert(!is_ascii_digit(d[i - start]));
            }
            return None;
        }
        let digit: u64 = ((c as u32) - ('0' as u32)) as u64;
        assert(d.take(i - start + 1).drop_last() =~= d.take(i - start));
        let next = match v.checked_mul(10) {
            Some(t) => t.checked_add(digit),
            None => None,
        };
        match next {
            Some(n) => {
                v = n;
            },
            None => {
                proof {
                    let k = i - start;
                    assert(digits_value(d.take(k + 1)) == digits_value(d.take(k)) * 10 + digit);
                    assert(digits_value(d.take(k + 1)) > u64::MAX);
                    if all_digits(d) {
                        lemma_digits_value_monotone(d, k + 1);
                    }
                }
                return None;
            },
        }
        i += 1;
    }
    assert(d.take(d.len() as int) =~= d);
    Some(v)
}

/// Parses an unsigned decimal number that fits in `u32` (`u32::from_str`).
pub fn parse_u32(s: &str) -> (r: Option<u32>)
    ensures
        match r {
            Some(v) => bounded(unsigned_literal(s@), u32::MAX as nat) == Some(v as nat),
            None => bounded(unsigned_literal(s@), u32::MAX as nat) is None,
        },
{
    match parse_u64(s) {
        Some(v) => if v <= u32::MAX as u64 {
            Some(v as u32)
        } else {
            None
        },
        None => None,
    }
}

/// Parses an unsigned decimal number that fits in `usize` (`usize::from_str`).
pub fn parse_usize(s: &str) -> (r: Option<usize>)
    ensures
        match r {
            Some(v) => bounded(unsigned_literal(s@), usize::MAX as nat) == Some(v as nat),
            None => bounded(unsigned_literal(s@), usize::MAX as nat) is None,
        },
{
    match parse_u64(s) {
        Some(v) => if v as u128 <= usize::MAX as u128 {
            Some(v as usize)
        } else {
            None
        },
        None => None,
    }
}

} // verus!

verus! {

/// The decimal digits of a natural number, most significant first (`to_string`).
pub open spec fn decimal(n: nat) -> Seq<char>
    decreases n,
{
    if n < 10 {
        seq![digit_char(n)]
    } else {
        decimal(n / 10).push(digit_char(n % 10))
    }
}

/// A number written in decimal reads back as itself.
pub proof fn lemma_decimal_reads_back(n: nat)
    ensures
        decimal(n).len() > 0,
        decimal(n)[0] != '+',
        all_digits(decimal(n)),
        digits_value(decimal(n)) == n,
        unsigned_literal(decimal(n)) == Some(n),
    decreases n,
{
    if n < 10 {
        assert(decimal(n) == seq![digit_char(n)]);
        assert(decimal(n).drop_last() =~= Seq::<char>::empty());
        assert(digits_value(decimal(n)) == digits_value(Seq::<char>::empty()) * 10 + ((digit_char(n) as u32) - ('0' as u32)) as nat);
    } else {
        lemma_decimal_reads_back(n / 10);
        let p = decimal(n / 10);
        let d = decimal(n);
        assert(d == p.push(digit_char(n % 10)));
        assert(d.drop_last() =~= p);
        assert(d[0] == p[0]);
        assert forall|i: int| 0 <= i < d.len() implies is_ascii_digit(#[trigger] d[i]) by {
            if i < p.len() {
                assert(d[i] == p[i]);
            }
        }
        assert(((digit_char(n % 10) as u32) - ('0' as u32)) as nat == n % 10);
        assert(digits_value(d) == digits_value(p) * 10 + ((d.last() as u32) - ('0' as u32)) as nat);
        assert((n / 10) * 10 + n % 10 == n) by (nonlinear_arith);
    }
    let d = decimal(n);
    assert(!(d.len() > 0 && d[0] == '+'));
    assert(unsigned_literal(d) == Some(digits_value(d)));
}

pub open spec fn digit_char(d: nat) -> char {
    if d == 0 {
        '0'
    } else if d == 1 {
        '1'
    } else if d == 2 {
        '2'
    } else if d == 3 {
        '3'
    } else if d == 4 {
        '4'
    } else if d == 5 {
        '5'
    } else if d == 6 {
        '6'
    } else if d == 7 {
        '7'
    } else if d == 8 {
        '8'
    } else {
        '9'
    }
}

fn digit(d: u64) -> (c: char)
    requires
        d < 10,
    ensures
        c == digit_char(d as nat),
{
    if d == 0 {
        '0'
    } else if d == 1 {
        '1'
    } else if d == 2 {
        '2'
    } else if d == 3 {
        '3'
    } else if d == 4 {
        '4'
    } else if d == 5 {
        '5'
    } else if d == 6 {
        '6'
    } else if d == 7 {
        '7'
    } else if d == 8 {
        '8'
    } else {
        '9'
    }
}

/// A lowercase hexadecimal digit for a value below sixteen.
pub open spec fn lower_hex_char(d: nat) -> char {
    if d < 10 {
        digit_char(d)
    } else if d == 10 {
        'a'
    } else if d == 11 {
        'b'
    } else if d == 12 {
        'c'
    } else if d == 13 {
        'd'
    } else if d == 14 {
        'e'
    } else {
        'f'
    }
}

/// The lowercase hexadecimal digit of a value below sixteen.
pub fn hex_digit(d: u8) -> (c: char)
    requires
        d < 16,
    ensures
        c == lower_hex_char(d as nat),
{
    if d < 10 {
        digit(d as u64)
    } else if d == 10 {
        'a'
    } else if d == 11 {
        'b'
    } else if d == 12 {
        'c'
    } else if d == 13 {
        'd'
    } else if d == 14 {
        'e'
    } else {
        'f'
    }
}

/// The decimal rendering of a number (`u64::to_string`).
pub fn u64_to_string(n: u64) -> (s: String)
    ensures
        s@ == decimal(n as nat),
    decreases n,
{
    if n < 10 {
        let mut s = String::new();
        push_char(&mut s, digit(n));
        assert(s@ =~= decimal(n as nat));
        s
    } else {
        let mut s = u64_to_string(n / 10);
        push_char(&mut s, digit(n % 10));
        s
    }
}

/// The decimal rendering of a `usize`.
pub fn usize_to_string(n: usize) -> (s: String)
    ensures
        s@ == decimal(n as nat),
{
    u64_to_string(n as u64)
}

} // verus!

verus! {

/// A line without one trailing carriage return.
pub open spec fn strip_cr(l: Seq<char>) -> Seq<char> {
    if l.len() > 0 && l.last() == '\r' {
        l.drop_last()
    } else {
        l
    }
}

/// The lines of `s` as `str::lines` yields them: split at `\n`, a `\r` before each `\n`
/// removed, and no empty line after a final `\n`.
pub open spec fn lines_of(s: Seq<char>) -> Seq<Seq<char>> {
    if s.len() == 0 {
        Seq::empty()
    } else {
        let parts = split_char(s, '\n');
        let kept = if s.last() == '\n' {
            parts.drop_last()
        } else {
            parts
        };
        Seq::new(kept.len(), |i: int| if i < parts.len() - 1 {
            strip_cr(kept[i])
        } else {
            kept[i]
        })
    }
}

/// The lines of a string (`str::lines`).
pub fn lines(s: &str) -> (r: Vec<String>)
    ensures
        views(r@) == lines_of(s@),
{
    let mut r: Vec<String> = Vec::new();
    let x = chars_of(s);
    if x.len() == 0 {
        assert(views(r@) =~= lines_of(s@));
        return r;
    }
    let parts = split_on_char(s, '\n');
    let ghost ps = views(parts@);
    let kept_len: usize = if x[x.len() - 1] == '\n' {
        proof {
            lemma_split_char_nonempty(s@, '\n');
        }
        parts.len() - 1
    } else {
        parts.len()
    };
    proof {
        lemma_split_char_nonempty(s@, '\n');
    }
    let mut i: usize = 0;
    while i < kept_len
        invariant
            ps == views(parts@),
            ps == split_char(s@, '\n'),
            ps.len() >= 1,
            kept_len <= parts@.len(),
            x@ == s@,
            x@.len() > 0,
            kept_len == (if s@.last() == '\n' {
                ps.len() - 1
            } else {
                ps.len() as int
            }),
            i <= kept_len,
            views(r@) == lines_of(s@).take(i as int),
        decreases kept_len - i,
    {
        let piece = parts[i].as_str();
        let pc = chars_of(piece);
        let line = if i + 1 < parts.len() && pc.len() > 0 && pc[pc.len() - 1] == '\r' {
            slice_string(pc.as_slice(), 0, pc.len() - 1)
        } else {
            owned(piece)
        };
        proof {
            assert(ps[i as int] == piece@);
            if i + 1 < parts.len() && pc@.len() > 0 && pc@.last() == '\r' {
                assert(line@ =~= piece@.drop_last());
            }
            assert(views(r@.push(line)) =~= views(r@).push(line@));
        }
        r.push(line);
        i += 1;
        assert(views(r@) =~= lines_of(s@).take(i as int));
    }
    assert(lines_of(s@).take(kept_len as int) =~= lines_of(s@));
    r
}

pub proof fn lemma_split_char_nonempty(s: Seq<char>, c: char)
    ensures
        split_char(s, c).len() >= 1,
    decreases s.len(),
{
    if exists|i: int| first_index_of(s, c, i) {
        let i = choose|i: int| first_index_of(s, c, i);
        lemma_split_char_nonempty(s.skip(i + 1), c);
    }
}

/// Splitting a text that begins with a piece free of `c`, then `c`, gives that piece first
/// and then the pieces of the rest.
pub proof fn lemma_split_char_cons(a: Seq<char>, c: char, rest: Seq<char>)
    requires
        !a.contains(c),
    ensures
        split_char(a + seq![c] + rest, c) == seq![a] + split_char(rest, c),
{
    let s = a + seq![c] + rest;
    assert(first_index_of(s, c, a.len() as int)) by {
        assert forall|j: int| 0 <= j < a.len() implies s[j] != c by {
            assert(s[j] == a[j]);
        }
    }
    lemma_first_index_unique(s, c, a.len() as int);
    assert(s.take(a.len() as int) =~= a);
    assert(s.skip(a.len() as int + 1) =~= rest);
}

/// A text free of `c` splits into itself alone.
pub proof fn lemma_split_char_none(s: Seq<char>, c: char)
    requires
        !s.contains(c),
    ensures
        split_char(s, c) == seq![s],
{
    assert forall|i: int| !first_index_of(s, c, i) by {
        if 0 <= i < s.len() {
            assert(s.contains(s[i]));
        }
    }
}

/// Joining a first piece to the rest puts the separator between them.
pub proof fn lemma_join_cons(x: Seq<char>, rest: Seq<Seq<char>>, sep: Seq<char>)
    requires
        rest.len() >= 1,
    ensures
        join(seq![x] + rest, sep) == x + sep + join(rest, sep),
    decreases rest.len(),
{
    let all = seq![x] + rest;
    assert(all.len() >= 2);
    assert(join(all, sep) == join(all.drop_last(), sep) + sep + all.last());
    if rest.len() == 1 {
        assert(all.drop_last() =~= seq![x]);
        assert(all.last() == rest[0]);
        assert(join(seq![x], sep) == x);
        assert(join(rest, sep) == rest[0]);
    } else {
        lemma_join_cons(x, rest.drop_last(), sep);
        assert(all.drop_last() =~= seq![x] + rest.drop_last());
        assert(all.last() == rest.last());
        assert(join(rest, sep) == join(rest.drop_last(), sep) + sep + rest.last());
        assert(x + sep + join(rest.drop_last(), sep) + sep + rest.last() =~= x + sep + (join(rest.drop_last(), sep) + sep + rest.last()));
    }
}

/// Joining the pieces of a split with the separator gives the text back.
pub proof fn lemma_join_split_char(s: Seq<char>, c: char)
    ensures
        join(split_char(s, c), seq![c]) == s,
    decreases s.len(),
{
    if exists|i: int| first_index_of(s, c, i) {
        let i = choose|i: int| first_index_of(s, c, i);
        lemma_join_split_char(s.skip(i + 1), c);
        lemma_split_char_nonempty(s.skip(i + 1), c);
        lemma_join_cons(s.take(i), split_char(s.skip(i + 1), c), seq![c]);
        assert(s.take(i) + seq![c] + s.skip(i + 1) =~= s);
    }
}

/// `s` with every trailing copy of `pat` removed (`str::trim_end_matches`).
pub open spec fn trim_end_matches(s: Seq<char>, pat: Seq<char>) -> Seq<char>
    decreases s.len(),
{
    if pat.len() > 0 && is_suffix(pat, s) {
        trim_end_matches(s.take(s.len() - pat.len()), pat)
    } else {
        s
    }
}

/// Removes every trailing copy of `pat`.
pub fn trim_end_matches_str(s: &str, pat: &str) -> (r: String)
    ensures
        r@ == trim_end_matches(s@, pat@),
{
    let x = chars_of(s);
    let p = chars_of(pat);
    let mut end: usize = x.len();
    if p.len() == 0 {
        return owned(s);
    }
    assert(s@.take(end as int) =~= s@);
    while end >= p.len() && crate::text::chars_occur_at(x.as_slice(), p.as_slice(), end - p.len())
        invariant
            x@ == s@,
            p@ == pat@,
            p@.len() > 0,
            end <= x.len(),
            trim_end_matches(s@, pat@) == trim_end_matches(s@.take(end as int), pat@),
        decreases end,
    {
        proof {
            let t = s@.take(end as int);
            assert(t.subrange(t.len() - p@.len(), t.len() as int) =~= s@.subrange(end - p@.len(), end as int));
            assert(t.take(t.len() - p@.len()) =~= s@.take(end - p@.len()));
        }
        end = end - p.len();
    }
    proof {
        let t = s@.take(end as int);
        if end >= p@.len() {
            assert(t.subrange(t.len() - p@.len(), t.len() as int) =~= s@.subrange(end - p@.len(), end as int));
        }
    }
    slice_string(x.as_slice(), 0, end)
}

/// The text between the first and second occurrence of `p` (or to the end), when `p` occurs
/// (`s.split(p).nth(1)`).
pub open spec fn second_piece(s: Seq<char>, p: Seq<char>) -> Option<Seq<char>> {
    if p.len() > 0 && contains_seq(s, p) {
        let i = choose|i: int| first_occurrence(s, p, i);
        let rest = s.skip(i + p.len());
        if contains_seq(rest, p) {
            let j = choose|j: int| first_occurrence(rest, p, j);
            Some(rest.take(j))
        } else {
            Some(rest)
        }
    } else {
        None
    }
}

pub proof fn lemma_first_occurrence_unique(s: Seq<char>, p: Seq<char>, i: int)
    requires
        first_occurrence(s, p, i),
    ensures
        forall|k: int| first_occurrence(s, p, k) ==> k == i,
{
}

/// A character that occurs has a first index.
pub proof fn lemma_first_index_exists(s: Seq<char>, c: char)
    requires
        s.contains(c),
    ensures
        exists|i: int| first_index_of(s, c, i),
{
    let i0 = choose|i: int| 0 <= i < s.len() && s[i] == c;
    lemma_first_index_below(s, c, i0);
}

proof fn lemma_first_index_below(s: Seq<char>, c: char, n: int)
    requires
        exists|i: int| 0 <= i <= n && i < s.len() && s[i] == c,
    ensures
        exists|i: int| first_index_of(s, c, i),
    decreases n,
{
    if n > 0 && exists|i: int| 0 <= i <= n - 1 && i < s.len() && s[i] == c {
        lemma_first_index_below(s, c, n - 1);
    } else {
        let i = choose|i: int| 0 <= i <= n && i < s.len() && s[i] == c;
        assert(first_index_of(s, c, i));
    }
}

/// A sequence that occurs somewhere has a first occurrence.
pub proof fn lemma_first_occurrence_exists(s: Seq<char>, p: Seq<char>)
    requires
        contains_seq(s, p),
    ensures
        exists|i: int| first_occurrence(s, p, i),
{
    let i0 = choose|i: int| occurs_at(s, p, i);
    lemma_first_occurrence_below(s, p, i0);
}

proof fn lemma_first_occurrence_below(s: Seq<char>, p: Seq<char>, n: int)
    requires
        exists|i: int| 0 <= i <= n && occurs_at(s, p, i),
    ensures
        exists|i: int| first_occurrence(s, p, i),
    decreases n,
{
    if n > 0 && exists|i: int| 0 <= i <= n - 1 && occurs_at(s, p, i) {
        lemma_first_occurrence_below(s, p, n - 1);
    } else {
        let i = choose|i: int| 0 <= i <= n && occurs_at(s, p, i);
        assert(first_occurrence(s, p, i));
    }
}

/// The second piece of `s` split at `p`.
pub fn second_piece_str(s: &str, p: &str) -> (r: Option<String>)
    requires
        p@.len() > 0,
    ensures
        match r {
            Some(x) => second_piece(s@, p@) == Some(x@),
            None => second_piece(s@, p@) is None,
        },
{
    match split_once_str(s, p) {
        Some((_, rest)) => {
            proof {
                let i = choose|i: int| first_occurrence(s@, p@, i) && rest@ == s@.skip(i + p@.len());
                lemma_first_occurrence_unique(s@, p@, i);
            }
            match split_once_str(rest.as_str(), p) {
                Some((piece, _)) => {
                    proof {
                        let j = choose|j: int| first_occurrence(rest@, p@, j) && piece@ == rest@.take(j);
                        lemma_first_occurrence_unique(rest@, p@, j);
                    }
                    Some(piece)
                },
                None => Some(rest),
            }
        },
        None => None,
    }
}

} // verus!

verus! {

/// A backtick or quote character.
pub open spec fn is_quote(c: char) -> bool {
    c == '`' || c == '\'' || c == '"'
}

pub open spec fn quote_prefix_len(s: Seq<char>) -> nat
    decreases s.len(),
{
    if s.len() > 0 && is_quote(s[0]) {
        1 + quote_prefix_len(s.skip(1))
    } else {
        0
    }
}

pub open spec fn quote_suffix_len(s: Seq<char>) -> nat
    decreases s.len(),
{
    if s.len() > 0 && is_quote(s.last()) {
        1 + quote_suffix_len(s.drop_last())
    } else {
        0
    }
}

/// `s` without leading and trailing backticks and quotes (`str::trim_matches`).
pub open spec fn trim_quotes(s: Seq<char>) -> Seq<char> {
    let t = s.skip(quote_prefix_len(s) as int);
    t.take(t.len() - quote_suffix_len(t))
}

proof fn lemma_quote_prefix_bound(s: Seq<char>)
    ensures
        quote_prefix_len(s) <= s.len(),
    decreases s.len(),
{
    if s.len() > 0 && is_quote(s[0]) {
        lemma_quote_prefix_bound(s.skip(1));
    }
}

proof fn lemma_quote_suffix_bound(s: Seq<char>)
    ensures
        quote_suffix_len(s) <= s.len(),
    decreases s.len(),
{
    if s.len() > 0 && is_quote(s.last()) {
        lemma_quote_suffix_bound(s.drop_last());
    }
}

/// Removes leading and trailing backticks and quotes.
pub fn trim_quotes_str(s: &str) -> (r: String)
    ensures
        r@ == trim_quotes(s@),
{
    let x = chars_of(s);
    let mut start: usize = 0;
    assert(s@.skip(0) =~= s@);
    while start < x.len() && (x[start] == '`' || x[start] == '\'' || x[start] == '"')
        invariant
            x@ == s@,
            start <= x.len(),
            quote_prefix_len(s@) == start + quote_prefix_len(s@.skip(start as int)),
        decreases x.len() - start,
    {
        assert(s@.skip(start as int).skip(1) =~= s@.skip(start + 1));
        start += 1;
    }
    proof {
        let t = s@.skip(start as int);
        if t.len() > 0 {
            assert(t[0] == s@[start as int]);
        }
        assert(quote_prefix_len(t) == 0);
    }
    let ghost t = s@.skip(start as int);
    let mut end: usize = x.len();
    assert(t.take(end - start) =~= t);
    while end > start && (x[end - 1] == '`' || x[end - 1] == '\'' || x[end - 1] == '"')
        invariant
            x@ == s@,
            start <= end <= x.len(),
            t == s@.skip(start as int),
            quote_suffix_len(t) == (x.len() - end) + quote_suffix_len(t.take(end - start)),
        decreases end,
    {
        assert(t.take(end - start).drop_last() =~= t.take(end - start - 1));
        end -= 1;
    }
    proof {
        let u = t.take(end - start);
        assert(quote_suffix_len(u) == 0);
        assert(t.take(t.len() - quote_suffix_len(t)) =~= s@.subrange(start as int, end as int));
    }
    slice_string(x.as_slice(), start, end)
}

/// The first whitespace-separated word, if any.
pub fn first_word(s: &str) -> (r: Option<String>)
    ensures
        match r {
            Some(w) => words(s@).len() > 0 && w@ == words(s@)[0],
            None => words(s@).len() == 0,
        },
{
    let ws = split_whitespace(s);
    if ws.len() > 0 {
        Some(ws[0].clone())
    } else {
        None
    }
}

} // verus!

verus! {

/// The pieces of `s` between occurrences of the non-empty `p` (`str::split` with a string).
pub open spec fn split_seq(s: Seq<char>, p: Seq<char>) -> Seq<Seq<char>>
    decreases s.len(),
{
    if p.len() > 0 && exists|i: int| first_occurrence(s, p, i) {
        let i = choose|i: int| first_occurrence(s, p, i);
        seq![s.take(i)] + split_seq(s.skip(i + p.len()), p)
    } else {
        seq![s]
    }
}

/// Splits `s` on every occurrence of the non-empty `p`.
pub fn split_str(s: &str, p: &str) -> (r: Vec<String>)
    requires
        p@.len() > 0,
    ensures
        views(r@) == split_seq(s@, p@),
{
    let y = chars_of(p);
    let mut rest = chars_of(s);
    let mut r: Vec<String> = Vec::new();
    assert(views(r@) + split_seq(rest@, p@) =~= split_seq(s@, p@));
    loop
        invariant
            y@ == p@,
            p@.len() > 0,
            views(r@) + split_seq(rest@, p@) == split_seq(s@, p@),
        decreases rest.len(),
    {
        match find_chars(rest.as_slice(), y.as_slice()) {
            Some(i) => {
                let piece = slice_string(rest.as_slice(), 0, i);
                let next = slice_vec(rest.as_slice(), i + y.len(), rest.len());
                proof {
                    lemma_first_occurrence_unique(rest@, p@, i as int);
                    assert(piece@ =~= rest@.take(i as int));
                    assert(next@ =~= rest@.skip(i + p@.len()));
                    assert(split_seq(rest@, p@) == seq![piece@] + split_seq(next@, p@));
                    assert(views(r@.push(piece)) =~= views(r@).push(piece@));
                    assert(views(r@).push(piece@) + split_seq(next@, p@) =~= views(r@) + (seq![piece@] + split_seq(next@, p@)));
                }
                r.push(piece);
                rest = next;
            },
            None => {
                let last = from_chars(rest.as_slice());
                proof {
                    assert(!exists|k: int| first_occurrence(rest@, p@, k));
                    assert(views(r@.push(last)) =~= views(r@).push(last@));
                    assert(views(r@).push(last@) =~= views(r@) + split_seq(rest@, p@));
                }
                r.push(last);
                return r;
            },
        }
    }
}

/// How many copies of `c` start `s`.
pub open spec fn lead_count(s: Seq<char>, c: char) -> nat
    decreases s.len(),
{
    if s.len() > 0 && s[0] == c {
        1 + lead_count(s.drop_first(), c)
    } else {
        0
    }
}

/// How many copies of `c` end `s`.
pub open spec fn tail_count(s: Seq<char>, c: char) -> nat
    decreases s.len(),
{
    if s.len() > 0 && s.last() == c {
        1 + tail_count(s.drop_last(), c)
    } else {
        0
    }
}

/// `s` without its leading copies of `c` (`str::trim_start_matches` with a char).
pub open spec fn trim_start_char(s: Seq<char>, c: char) -> Seq<char> {
    s.skip(lead_count(s, c) as int)
}

/// `s` without its leading and trailing copies of `c` (`str::trim_matches` with a char).
pub open spec fn trim_char(s: Seq<char>, c: char) -> Seq<char> {
    let t = trim_start_char(s, c);
    t.take(t.len() - tail_count(t, c))
}

proof fn lemma_lead_count(s: Seq<char>, c: char, i: int)
    requires
        0 <= i <= s.len(),
        forall|j: int| 0 <= j < i ==> s[j] == c,
    ensures
        lead_count(s, c) == i + lead_count(s.skip(i), c),
        lead_count(s, c) <= s.len(),
    decreases i,
{
    if i > 0 {
        lemma_lead_count(s.drop_first(), c, i - 1);
        assert(s.drop_first().skip(i - 1) =~= s.skip(i));
    } else {
        assert(s.skip(0) =~= s);
        lemma_lead_count_bound(s, c);
    }
}

proof fn lemma_lead_count_bound(s: Seq<char>, c: char)
    ensures
        lead_count(s, c) <= s.len(),
    decreases s.len(),
{
    if s.len() > 0 && s[0] == c {
        lemma_lead_count_bound(s.drop_first(), c);
    }
}

proof fn lemma_tail_count(s: Seq<char>, c: char, i: int)
    requires
        0 <= i <= s.len(),
        forall|j: int| s.len() - i <= j < s.len() ==> s[j] == c,
    ensures
        tail_count(s, c) == i + tail_count(s.take(s.len() - i), c),
        tail_count(s, c) <= s.len(),
    decreases i,
{
    if i > 0 {
        lemma_tail_count(s.drop_last(), c, i - 1);
        assert(s.drop_last().take(s.drop_last().len() - (i - 1)) =~= s.take(s.len() - i));
    } else {
        assert(s.take(s.len() as int) =~= s);
        lemma_tail_count_bound(s, c);
    }
}

proof fn lemma_tail_count_bound(s: Seq<char>, c: char)
    ensures
        tail_count(s, c) <= s.len(),
    decreases s.len(),
{
    if s.len() > 0 && s.last() == c {
        lemma_tail_count_bound(s.drop_last(), c);
    }
}

/// Removes the leading copies of `c`.
pub fn trim_start_char_str(s: &str, c: char) -> (r: String)
    ensures
        r@ == trim_start_char(s@, c),
{
    let x = chars_of(s);
    let mut i: usize = 0;
    while i < x.len() && x[i] == c
        invariant
            x@ == s@,
            i <= x.len(),
            forall|j: int| 0 <= j < i ==> x@[j] == c,
        decreases x.len() - i,
    {
        i += 1;
    }
    proof {
        lemma_lead_count(s@, c, i as int);
        if i < x.len() {
            assert(s@.skip(i as int)[0] != c);
        }
        assert(lead_count(s@.skip(i as int), c) == 0);
    }
    slice_string(x.as_slice(), i, x.len())
}

/// Removes the leading and trailing copies of `c`.
pub fn trim_char_str(s: &str, c: char) -> (r: String)
    ensures
        r@ == trim_char(s@, c),
{
    let t = trim_start_char_str(s, c);
    let x = chars_of(t.as_str());
    let mut n: usize = x.len();
    while n > 0 && x[n - 1] == c
        invariant
            x@ == t@,
            n <= x.len(),
            forall|j: int| n <= j < x.len() ==> x@[j] == c,
        decreases n,
    {
        n -= 1;
    }
    proof {
        let k = x.len() - n;
        lemma_tail_count(t@, c, k as int);
        assert(t@.take(t@.len() - k) =~= t@.take(n as int));
        if n > 0 {
            assert(t@.take(n as int).last() != c);
        }
        assert(tail_count(t@.take(n as int), c) == 0);
    }
    slice_string(x.as_slice(), 0, n)
}

} // verus!
