//! Request bodies sent with `Transfer-Encoding: chunked`: decoding them from the bytes read so
//! far, which either gives the body, tells what more is needed, or refuses the encoding.
use crate::text::{chars_of, is_ascii_hex, slice_string, trim, trim_str};
use vstd::prelude::*;
use vstd::utf8::{decode_utf8, valid_utf8};

verus! {

/// What decoding a chunked body from the bytes read so far gives: the body, more bytes needed
/// to read a chunk's size line or a chunk's data, or the message of an invalid encoding.
#[derive(Debug, PartialEq)]
pub enum ChunkedBody {
    Done(Vec<u8>),
    NeedSize,
    NeedBody,
    Invalid(String),
}

/// The mathematical form of a decoding outcome.
pub enum Chunked {
    Done(Seq<u8>),
    NeedSize,
    NeedBody,
    Invalid(Seq<char>),
}

impl View for ChunkedBody {
    type V = Chunked;

    open spec fn view(&self) -> Chunked {
        match self {
            ChunkedBody::Done(b) => Chunked::Done(b@),
            ChunkedBody::NeedSize => Chunked::NeedSize,
            ChunkedBody::NeedBody => Chunked::NeedBody,
            ChunkedBody::Invalid(m) => Chunked::Invalid(m@),
        }
    }
}

/// The message `std::str::Utf8Error` gives for bytes that are not UTF-8.
pub uninterp spec fn utf8_error(bytes: Seq<u8>) -> Seq<char>;

/// Reads bytes as UTF-8 text with `std::str::from_utf8`: the text they encode, or, where they
/// are not UTF-8, the error's message (`to_string`), which the contract names.
#[verifier::external_body]
fn utf8_text_of(bytes: &[u8]) -> (r: Result<String, String>)
    ensures
        r is Ok <==> valid_utf8(bytes@),
        r matches Ok(s) ==> s@ == decode_utf8(bytes@),
        r matches Err(m) ==> m@ == utf8_error(bytes@),
{
    std::str::from_utf8(bytes).map(|s| s.to_owned()).map_err(|e| e.to_string())
}

/// A CRLF starts at `i`.
pub open spec fn crlf_at(b: Seq<u8>, i: int) -> bool {
    0 <= i && i + 1 < b.len() && b[i] == 13 && b[i + 1] == 10
}

/// `e` is the first CRLF at or after `c`.
pub open spec fn first_crlf(b: Seq<u8>, c: int, e: int) -> bool {
    c <= e && crlf_at(b, e) && forall|j: int| c <= j < e ==> !#[trigger] crlf_at(b, j)
}

/// The text before the first `c` (all of it where there is none).
pub open spec fn prefix_until(s: Seq<char>, c: char) -> Seq<char>
    decreases s.len(),
{
    if s.len() == 0 || s[0] == c {
        Seq::empty()
    } else {
        seq![s[0]] + prefix_until(s.drop_first(), c)
    }
}

/// The value of a hexadecimal digit.
pub open spec fn hex_char_value(c: char) -> nat {
    if '0' <= c && c <= '9' {
        (c as int - 48) as nat
    } else if 'a' <= c && c <= 'f' {
        (c as int - 87) as nat
    } else {
        (c as int - 55) as nat
    }
}

/// The value of a text of hexadecimal digits.
pub open spec fn hex_val(s: Seq<char>) -> nat
    decreases s.len(),
{
    if s.len() == 0 {
        0
    } else {
        hex_val(s.drop_last()) * 16 + hex_char_value(s.last())
    }
}

/// The digits of a size: the text after an optional leading `+`.
pub open spec fn size_digits(t: Seq<char>) -> Seq<char> {
    if t.len() > 0 && t[0] == '+' { t.drop_first() } else { t }
}

/// Every character is a hexadecimal digit.
pub open spec fn all_hex(d: Seq<char>) -> bool {
    forall|i: int| 0 <= i < d.len() ==> is_ascii_hex(#[trigger] d[i])
}

/// A chunk size as `usize::from_str_radix(_, 16)` reads it: an optional `+`, then at least one
/// hexadecimal digit, the value fitting in a `usize`.
pub open spec fn chunk_size(t: Seq<char>) -> Option<nat> {
    let d = size_digits(t);
    if d.len() > 0 && all_hex(d) && hex_val(d) <= usize::MAX {
        Some(hex_val(d))
    } else {
        None
    }
}

/// The decoding of the chunks from byte `c` on: a size line up to the first CRLF (UTF-8, its
/// extensions after `;` ignored, trimmed, hexadecimal); a zero size ends the body; otherwise
/// that many bytes of data and a CRLF follow, and the next chunk starts after them.
pub open spec fn chunked_at(b: Seq<u8>, c: int) -> Chunked
    decreases b.len() - c,
{
    if c < 0 || c > b.len() {
        Chunked::NeedSize
    } else if exists|e: int| first_crlf(b, c, e) {
        let e = choose|e: int| first_crlf(b, c, e);
        let raw = b.subrange(c, e);
        if !valid_utf8(raw) {
            Chunked::Invalid(utf8_error(raw))
        } else {
            let line = decode_utf8(raw);
            match chunk_size(trim(prefix_until(line, ';'))) {
                None => Chunked::Invalid("invalid chunk size: "@ + line),
                Some(n) => if n == 0 {
                    Chunked::Done(Seq::empty())
                } else if b.len() - (e + 2) < n + 2 {
                    Chunked::NeedBody
                } else if !crlf_at(b, e + 2 + n) {
                    Chunked::Invalid("chunk body missing trailing CRLF"@)
                } else {
                    match chunked_at(b, e + 2 + n + 2) {
                        Chunked::Done(rest) => Chunked::Done(b.subrange(e + 2, e + 2 + n) + rest),
                        other => other,
                    }
                },
            }
        }
    } else {
        Chunked::NeedSize
    }
}

/// Data decoded so far in front of the outcome of the rest.
pub open spec fn after_data(d: Seq<u8>, rest: Chunked) -> Chunked {
    match rest {
        Chunked::Done(r) => Chunked::Done(d + r),
        other => other,
    }
}

/// The index of the first CRLF at or after `c`, if there is one.
fn find_crlf(b: &[u8], c: usize) -> (r: Option<usize>)
    requires
        c <= b.len(),
    ensures
        match r {
            Some(e) => first_crlf(b@, c as int, e as int),
            None => !exists|e: int| first_crlf(b@, c as int, e),
        },
{
    let mut j: usize = c;
    while b.len() - j > 1
        invariant
            c <= j <= b.len(),
            c <= b.len(),
            forall|k: int| c <= k < j ==> !#[trigger] crlf_at(b@, k),
        decreases b.len() - j,
    {
        if b[j] == 13 && b[j + 1] == 10 {
            return Some(j);
        }
        j += 1;
    }
    assert forall|e: int| !first_crlf(b@, c as int, e) by {
        if first_crlf(b@, c as int, e) {
            assert(e < j ==> !crlf_at(b@, e));
        }
    }
    None
}

/// The bytes `from..to`.
fn bytes_between(b: &[u8], from: usize, to: usize) -> (r: Vec<u8>)
    requires
        from <= to <= b.len(),
    ensures
        r@ == b@.subrange(from as int, to as int),
{
    let mut r: Vec<u8> = Vec::new();
    let mut i: usize = from;
    while i < to
        invariant
            from <= i <= to <= b.len(),
            r@ == b@.subrange(from as int, i as int),
        decreases to - i,
    {
        r.push(b[i]);
        i += 1;
        assert(r@ =~= b@.subrange(from as int, i as int));
    }
    r
}

proof fn lemma_prefix_until_take(s: Seq<char>, c: char, i: int)
    requires
        0 <= i <= s.len(),
        forall|j: int| 0 <= j < i ==> s[j] != c,
        i == s.len() || s[i] == c,
    ensures
        prefix_until(s, c) == s.take(i),
    decreases s.len(),
{
    if s.len() == 0 || s[0] == c {
        assert(s.take(i) =~= Seq::<char>::empty());
    } else {
        lemma_prefix_until_take(s.drop_first(), c, i - 1);
        assert(s.take(i) =~= seq![s[0]] + s.drop_first().take(i - 1));
    }
}

/// The text of a size line before its first `;`.
fn before_semicolon(line: &str) -> (r: String)
    ensures
        r@ == prefix_until(line@, ';'),
{
    let x = chars_of(line);
    let mut i: usize = 0;
    while i < x.len() && x[i] != ';'
        invariant
            i <= x.len(),
            x@ == line@,
            forall|j: int| 0 <= j < i ==> x@[j] != ';',
        decreases x.len() - i,
    {
        i += 1;
    }
    proof { lemma_prefix_until_take(line@, ';', i as int); }
    slice_string(x.as_slice(), 0, i)
}

fn hex_digit_value(c: char) -> (r: Option<usize>)
    ensures
        r is Some <==> is_ascii_hex(c),
        r matches Some(v) ==> v == hex_char_value(c) && v < 16,
{
    if '0' <= c && c <= '9' {
        Some(((c as u32) - 48) as usize)
    } else if 'a' <= c && c <= 'f' {
        Some(((c as u32) - 87) as usize)
    } else if 'A' <= c && c <= 'F' {
        Some(((c as u32) - 55) as usize)
    } else {
        None
    }
}

/// A chunk size read as `usize::from_str_radix(_, 16)` reads it (see `chunk_size`).
fn parse_chunk_size(t: &str) -> (r: Option<usize>)
    ensures
        match r {
            Some(n) => chunk_size(t@) == Some(n as nat),
            None => chunk_size(t@) is None,
        },
{
    let x = chars_of(t);
    let start: usize = if x.len() > 0 && x[0] == '+' { 1 } else { 0 };
    let ghost d = size_digits(t@);
    assert(d =~= x@.skip(start as int));
    if start == x.len() {
        return None;
    }
    let mut acc: usize = 0;
    let mut i: usize = start;
    while i < x.len()
        invariant
            start <= i <= x.len(),
            x@ == t@,
            d == x@.skip(start as int),
            d == size_digits(t@),
            forall|j: int| start <= j < i ==> is_ascii_hex(#[trigger] x@[j]),
            acc == hex_val(x@.subrange(start as int, i as int)),
        decreases x.len() - i,
    {
        assert(x@.subrange(start as int, i + 1).drop_last() =~= x@.subrange(start as int, i as int));
        let v = match hex_digit_value(x[i]) {
            Some(v) => v,
            None => {
                assert(d[i - start] == x@[i as int]);
                assert(!is_ascii_hex(d[i - start]));
                return None;
            },
        };
        let next = match acc.checked_mul(16) {
            Some(m) => m.checked_add(v),
            None => None,
        };
        match next {
            Some(n) => {
                acc = n;
            },
            None => {
                proof {
                    let p = x@.subrange(start as int, i + 1);
                    assert(p.drop_last() =~= x@.subrange(start as int, i as int));
                    assert(hex_val(p) == acc * 16 + v);
                    assert(d.take(i - start + 1) =~= p);
                    lemma_hex_val_grows(d, (i - start + 1) as int);
                }
                return None;
            },
        }
        i += 1;
    }
    assert(x@.subrange(start as int, x.len() as int) =~= d);
    assert forall|j: int| 0 <= j < d.len() implies is_ascii_hex(#[trigger] d[j]) by {
        assert(d[j] == x@[start + j]);
    }
    Some(acc)
}

/// A longer text of hexadecimal digits has at least the value of its prefix.
proof fn lemma_hex_val_grows(s: Seq<char>, k: int)
    requires
        0 <= k <= s.len(),
    ensures
        hex_val(s.take(k)) <= hex_val(s),
    decreases s.len(),
{
    if k < s.len() {
        assert(s.drop_last().take(k) =~= s.take(k));
        lemma_hex_val_grows(s.drop_last(), k);
        assert(hex_val(s) == hex_val(s.drop_last()) * 16 + hex_char_value(s.last()));
    } else {
        assert(s.take(k) =~= s);
    }
}

/// Decodes a chunked body from the bytes read so far (see `chunked_at`): the body once its
/// last chunk is read, what more is needed before that, or why the encoding is invalid.
pub fn decode_chunked(encoded: &[u8]) -> (r: ChunkedBody)
    ensures
        r@ == chunked_at(encoded@, 0),
{
    let ghost b = encoded@;
    let mut decoded: Vec<u8> = Vec::new();
    let mut cursor: usize = 0;
    loop
        invariant
            cursor <= encoded.len(),
            b == encoded@,
            after_data(decoded@, chunked_at(b, cursor as int)) == chunked_at(b, 0),
        decreases encoded.len() - cursor,
    {
        let line_end = match find_crlf(encoded, cursor) {
            Some(e) => e,
            None => {
                assert(chunked_at(b, cursor as int) == Chunked::NeedSize);
                return ChunkedBody::NeedSize;
            },
        };
        proof {
            let e2 = choose|e: int| first_crlf(b, cursor as int, e);
            assert(first_crlf(b, cursor as int, e2));
            if e2 < line_end {
                assert(!crlf_at(b, e2));
            } else if e2 > line_end {
                assert(!crlf_at(b, line_end as int));
            }
        }
        let raw = bytes_between(encoded, cursor, line_end);
        let line = match utf8_text_of(raw.as_slice()) {
            Ok(l) => l,
            Err(m) => {
                return ChunkedBody::Invalid(m);
            },
        };
        let head = before_semicolon(line.as_str());
        let size_text = trim_str(head.as_str());
        let size = match parse_chunk_size(size_text.as_str()) {
            Some(n) => n,
            None => {
                proof { reveal_strlit("invalid chunk size: "); }
                let mut m = "invalid chunk size: ".to_owned();
                m.append(line.as_str());
                return ChunkedBody::Invalid(m);
            },
        };
        let body_start = line_end + 2;
        if size == 0 {
            assert(decoded@ + Seq::<u8>::empty() =~= decoded@);
            return ChunkedBody::Done(decoded);
        }
        if encoded.len() - body_start < size || encoded.len() - body_start - size < 2 {
            return ChunkedBody::NeedBody;
        }
        let body_end = body_start + size;
        if !(encoded[body_end] == 13 && encoded[body_end + 1] == 10) {
            proof { reveal_strlit("chunk body missing trailing CRLF"); }
            return ChunkedBody::Invalid("chunk body missing trailing CRLF".to_owned());
        }
        let ghost before = decoded@;
        let chunk = bytes_between(encoded, body_start, body_end);
        let mut chunk = chunk;
        decoded.append(&mut chunk);
        proof {
            let rest = chunked_at(b, body_end + 2);
            assert(chunked_at(b, cursor as int) == after_data(b.subrange(body_start as int, body_end as int), rest));
            match rest {
                Chunked::Done(r) => {
                    assert(before + (b.subrange(body_start as int, body_end as int) + r) =~= decoded@ + r);
                },
                _ => {},
            }
        }
        cursor = body_end + 2;
    }
}

} // verus!
