//! The plain parts of the DTU server's HTTP handling.
use crate::strmap::{insert_text, text_map, StrMap};
use crate::text::{ascii_lower, bounded, contains, first_index_of, is_ascii_hex, split_once_char, split_seq, split_str,
    split_whitespace, to_ascii_lower, trim, trim_str, unsigned_literal, views, words, parse_usize};
use vstd::prelude::*;
use vstd::utf8::{decode_utf8, encode_utf8, valid_utf8};

verus! {

/// The reason phrase the server sends with a status code.
pub open spec fn status_phrase(status: u16) -> Seq<char> {
    if status == 200 {
        "OK"@
    } else if status == 201 {
        "Created"@
    } else if status == 204 {
        "No Content"@
    } else if status == 400 {
        "Bad Request"@
    } else if status == 404 {
        "Not Found"@
    } else if status == 409 {
        "Conflict"@
    } else if status == 422 {
        "Unprocessable Entity"@
    } else if status == 500 {
        "Internal Server Error"@
    } else {
        "OK"@
    }
}

/// The reason phrase of a status code.
pub fn status_text(status: u16) -> (r: &'static str)
    ensures
        r@ == status_phrase(status),
{
    match status {
        200 => "OK",
        201 => "Created",
        204 => "No Content",
        400 => "Bad Request",
        404 => "Not Found",
        409 => "Conflict",
        422 => "Unprocessable Entity",
        500 => "Internal Server Error",
        _ => "OK",
    }
}

/// `\r\n\r\n` starts at byte `i`.
pub open spec fn blank_line_at(b: Seq<u8>, i: int) -> bool {
    0 <= i && i + 4 <= b.len() && b[i] == 13u8 && b[i + 1] == 10u8 && b[i + 2] == 13u8 && b[i + 3] == 10u8
}

/// Where the blank line that ends the headers starts: its first occurrence.
pub fn find_header_end(buffer: &[u8]) -> (r: Option<usize>)
    ensures
        match r {
            Some(i) => blank_line_at(buffer@, i as int) && forall|j: int| 0 <= j < i ==> !blank_line_at(buffer@, j),
            None => forall|j: int| !blank_line_at(buffer@, j),
        },
{
    let mut i: usize = 0;
    while i < buffer.len() && buffer.len() - i >= 4
        invariant
            i <= buffer.len(),
            forall|j: int| 0 <= j < i ==> !blank_line_at(buffer@, j),
        decreases buffer.len() - i,
    {
        if buffer[i] == 13u8 && buffer[i + 1] == 10u8 && buffer[i + 2] == 13u8 && buffer[i + 3] == 10u8 {
            return Some(i);
        }
        i += 1;
    }
    None
}

/// The value of a hexadecimal digit byte.
pub open spec fn hex_value(b: u8) -> int {
    if 48 <= b <= 57 {
        b - 48
    } else if 97 <= b <= 102 {
        b - 87
    } else {
        b - 55
    }
}

/// A hexadecimal digit byte.
pub open spec fn hex_byte(b: u8) -> bool {
    (48 <= b <= 57) || (97 <= b <= 102) || (65 <= b <= 70)
}

/// The byte that two bytes after a `%` stand for, as `u8::from_str_radix(_, 16)` reads them:
/// two hexadecimal digits, or `+` and one digit.
pub open spec fn escaped_byte(a: u8, b: u8) -> Option<u8> {
    if a == 43 && hex_byte(b) {
        Some(hex_value(b) as u8)
    } else if hex_byte(a) && hex_byte(b) {
        Some((16 * hex_value(a) + hex_value(b)) as u8)
    } else {
        None
    }
}

/// The bytes from position `i` on with `+` read as a space and `%XY` as the byte it escapes;
/// none when an escape with two following bytes is not hexadecimal.
pub open spec fn percent_decoded(b: Seq<u8>, i: int) -> Option<Seq<u8>>
    decreases b.len() - i,
{
    if i < 0 || i >= b.len() {
        Some(Seq::empty())
    } else if b[i] == 43 {
        match percent_decoded(b, i + 1) {
            Some(rest) => Some(seq![32u8] + rest),
            None => None,
        }
    } else if b[i] == 37 && i + 2 < b.len() {
        match escaped_byte(b[i + 1], b[i + 2]) {
            Some(x) => match percent_decoded(b, i + 3) {
                Some(rest) => Some(seq![x] + rest),
                None => None,
            },
            None => None,
        }
    } else {
        match percent_decoded(b, i + 1) {
            Some(rest) => Some(seq![b[i]] + rest),
            None => None,
        }
    }
}

/// A URL component decoded: its UTF-8 bytes unescaped, when they still form UTF-8 text.
pub open spec fn url_decoded(s: Seq<char>) -> Option<Seq<char>> {
    match percent_decoded(encode_utf8(s), 0) {
        Some(b) => if valid_utf8(b) { Some(decode_utf8(b)) } else { None },
        None => None,
    }
}

/// Reads bytes as UTF-8 text with `String::from_utf8`: the text they encode, or none when they
/// are not valid UTF-8, as its documentation states.
#[verifier::external_body]
fn utf8_string_of(bytes: Vec<u8>) -> (r: Option<String>)
    ensures
        r is Some <==> valid_utf8(bytes@),
        r matches Some(s) ==> s@ == decode_utf8(bytes@),
{
    String::from_utf8(bytes).ok()
}

fn hex_byte_value(b: u8) -> (r: Option<u8>)
    ensures
        r is Some <==> hex_byte(b),
        r matches Some(v) ==> v == hex_value(b) && v < 16,
{
    if 48 <= b && b <= 57 {
        Some(b - 48)
    } else if 97 <= b && b <= 102 {
        Some(b - 87)
    } else if 65 <= b && b <= 70 {
        Some(b - 55)
    } else {
        None
    }
}

fn escaped(a: u8, b: u8) -> (r: Option<u8>)
    ensures
        r == escaped_byte(a, b),
{
    match hex_byte_value(b) {
        Some(low) => {
            if a == 43 {
                Some(low)
            } else {
                match hex_byte_value(a) {
                    Some(high) => Some(16 * high + low),
                    None => None,
                }
            }
        },
        None => None,
    }
}

/// Decodes a URL component (`+` as space, `%XY` escapes); none when an escape is not
/// hexadecimal or the result is not UTF-8.
pub fn url_decode(value: &str) -> (r: Option<String>)
    ensures
        match r {
            Some(t) => url_decoded(value@) == Some(t@),
            None => url_decoded(value@) is None,
        },
{
    let bytes = value.as_bytes();
    let ghost b = bytes@;
    assert(b == encode_utf8(value@));
    let mut out: Vec<u8> = Vec::new();
    let mut i: usize = 0;
    while i < bytes.len()
        invariant
            b == bytes@,
            b == encode_utf8(value@),
            i <= bytes.len(),
            percent_decoded(b, 0) == match percent_decoded(b, i as int) {
                Some(rest) => Some(out@ + rest),
                None => None,
            },
        decreases bytes.len() - i,
    {
        let c = bytes[i];
        if c == 43 {
            assert(out@ + (seq![32u8] + match percent_decoded(b, i + 1) { Some(r) => r, None => Seq::empty() })
                =~= out@.push(32u8) + match percent_decoded(b, i + 1) { Some(r) => r, None => Seq::empty() });
            out.push(32);
            i += 1;
        } else if c == 37 && bytes.len() - i > 2 {
            match escaped(bytes[i + 1], bytes[i + 2]) {
                Some(x) => {
                    assert(out@ + (seq![x] + match percent_decoded(b, i + 3) { Some(r) => r, None => Seq::empty() })
                        =~= out@.push(x) + match percent_decoded(b, i + 3) { Some(r) => r, None => Seq::empty() });
                    out.push(x);
                    i += 3;
                },
                None => {
                    assert(percent_decoded(b, i as int) is None);
                    assert(percent_decoded(b, 0) is None);
                    assert(b == encode_utf8(value@));
                    return None;
                },
            }
        } else {
            assert(out@ + (seq![c] + match percent_decoded(b, i + 1) { Some(r) => r, None => Seq::empty() })
                =~= out@.push(c) + match percent_decoded(b, i + 1) { Some(r) => r, None => Seq::empty() });
            out.push(c);
            i += 1;
        }
    }
    assert(out@ + Seq::<u8>::empty() =~= out@);
    utf8_string_of(out)
}

/// A part of a query split at its first `=`: the key and the value, empty without one.
pub open spec fn query_pair(p: Seq<char>) -> (Seq<char>, Seq<char>) {
    if p.contains('=') {
        let i = choose|i: int| first_index_of(p, '=', i);
        (p.take(i), p.skip(i + 1))
    } else {
        (p, Seq::empty())
    }
}

/// The parameters of a query's parts, later ones replacing earlier ones: each non-empty part
/// whose key decodes, with its decoded value (empty when that does not decode).
pub open spec fn query_map(parts: Seq<Seq<char>>) -> Map<Seq<char>, Seq<char>>
    decreases parts.len(),
{
    if parts.len() == 0 {
        Map::empty()
    } else {
        let m = query_map(parts.drop_last());
        let p = parts.last();
        if p.len() == 0 {
            m
        } else {
            match url_decoded(query_pair(p).0) {
                Some(k) => m.insert(k, match url_decoded(query_pair(p).1) {
                    Some(v) => v,
                    None => Seq::empty(),
                }),
                None => m,
            }
        }
    }
}

/// A request target split at its first `?`: the path and the query text.
pub open spec fn target_parts(t: Seq<char>) -> (Seq<char>, Seq<char>) {
    if t.contains('?') {
        let i = choose|i: int| first_index_of(t, '?', i);
        (t.take(i), t.skip(i + 1))
    } else {
        (t, Seq::empty())
    }
}

proof fn lemma_first_index_unique(s: Seq<char>, c: char, i: int, j: int)
    requires
        first_index_of(s, c, i),
        first_index_of(s, c, j),
    ensures
        i == j,
{
    if i < j {
        assert(s[i] != c);
    } else if j < i {
        assert(s[j] != c);
    }
}

fn split_at_first(s: &str, c: char) -> (r: (String, String))
    ensures
        s@.contains(c) ==> (r.0@, r.1@) == ({
            let i = choose|i: int| first_index_of(s@, c, i);
            (s@.take(i), s@.skip(i + 1))
        }),
        !s@.contains(c) ==> r.0@ == s@ && r.1@ == Seq::<char>::empty(),
{
    match split_once_char(s, c) {
        Some(p) => {
            proof {
                let j = choose|i: int| first_index_of(s@, c, i) && p.0@ == s@.take(i) && p.1@ == s@.skip(i + 1);
                let i = choose|i: int| first_index_of(s@, c, i);
                lemma_first_index_unique(s@, c, i, j);
            }
            p
        },
        None => {
            proof { reveal_strlit(""); assert(""@ =~= Seq::<char>::empty()); }
            (s.to_owned(), "".to_owned())
        },
    }
}

/// A request target's path and its decoded query parameters.
pub fn split_target(target: &str) -> (r: (String, StrMap<String>))
    ensures
        r.0@ == target_parts(target@).0,
        r.1.wf(),
        text_map(r.1) == query_map(split_char_seq(target_parts(target@).1)),
{
    let (path, query) = split_at_first(target, '?');
    let parts = crate::text::split_on_char(query.as_str(), '&');
    let ghost ps = views(parts@);
    let mut m: StrMap<String> = StrMap::new();
    assert(text_map(m) =~= Map::<Seq<char>, Seq<char>>::empty());
    assert(ps.take(0) =~= Seq::<Seq<char>>::empty());
    let mut i: usize = 0;
    while i < parts.len()
        invariant
            i <= parts.len(),
            ps == views(parts@),
            m.wf(),
            text_map(m) == query_map(ps.take(i as int)),
        decreases parts.len() - i,
    {
        let ghost t = ps.take(i + 1);
        assert(t.drop_last() =~= ps.take(i as int));
        assert(t.last() == parts@[i as int]@);
        let part = &parts[i];
        proof { reveal_strlit(""); }
        if !crate::text::str_eq(part.as_str(), "") {
            proof {
                if part@.len() == 0 {
                    assert(part@ =~= ""@);
                }
            }
            let (k, v) = split_at_first(part.as_str(), '=');
            if let Some(key) = url_decode(k.as_str()) {
                let value = match url_decode(v.as_str()) {
                    Some(x) => x,
                    None => "".to_owned(),
                };
                proof { assert(""@ =~= Seq::<char>::empty()); }
                insert_text(&mut m, key.as_str(), value.as_str());
            }
        } else {
            assert(part@ =~= ""@);
        }
        i += 1;
    }
    assert(ps.take(parts.len() as int) =~= ps);
    (path, m)
}

/// The parts of a text split at every `&`.
pub open spec fn split_char_seq(q: Seq<char>) -> Seq<Seq<char>> {
    crate::text::split_char(q, '&')
}

/// The head of a request: method, path, query parameters and headers.
#[derive(Debug, Clone, PartialEq, Eq)]
pub struct RequestHead {
    pub method: String,
    pub path: String,
    pub query: StrMap<String>,
    pub headers: StrMap<String>,
}

/// The header fields of the head's lines after the first, later ones replacing earlier ones:
/// each line with a `:`, its name trimmed and lowercased, its value trimmed.
pub open spec fn header_map(lines: Seq<Seq<char>>) -> Map<Seq<char>, Seq<char>>
    decreases lines.len(),
{
    if lines.len() == 0 {
        Map::empty()
    } else {
        let m = header_map(lines.drop_last());
        let l = lines.last();
        if l.contains(':') {
            let i = choose|i: int| first_index_of(l, ':', i);
            m.insert(ascii_lower(trim(l.take(i))), trim(l.skip(i + 1)))
        } else {
            m
        }
    }
}

/// The line break of HTTP.
pub open spec fn crlf() -> Seq<char> {
    seq!['\r', '\n']
}

/// A request head parsed from its text (the bytes before the blank line): the request line's
/// first two words are the method and the target.
pub fn parse_request_head(head: &str) -> (r: Result<RequestHead, String>)
    ensures
        ({
            let lines = split_seq(head@, crlf());
            let ws = words(lines[0]);
            match r {
                Ok(h) => ws.len() >= 2 && h.method@ == ws[0] && h.path@ == target_parts(ws[1]).0
                    && h.query.wf() && text_map(h.query) == query_map(split_char_seq(target_parts(ws[1]).1))
                    && h.headers.wf() && text_map(h.headers) == header_map(lines.drop_first()),
                Err(e) => (ws.len() == 0 && e@ == "missing method"@) || (ws.len() == 1 && e@ == "missing target"@),
            }
        }),
{
    proof { reveal_strlit("\r\n"); assert("\r\n"@ =~= crlf()); }
    let lines = split_str(head, "\r\n");
    let ghost ls = views(lines@);
    proof { lemma_split_seq_nonempty(head@, crlf()); }
    assert(ls.len() > 0);
    let ws = split_whitespace(lines[0].as_str());
    if ws.len() == 0 {
        return Err("missing method".to_owned());
    }
    if ws.len() == 1 {
        return Err("missing target".to_owned());
    }
    let method = ws[0].clone();
    let (path, query) = split_target(ws[1].as_str());
    let mut headers: StrMap<String> = StrMap::new();
    assert(text_map(headers) =~= Map::<Seq<char>, Seq<char>>::empty());
    assert(ls.drop_first().take(0) =~= Seq::<Seq<char>>::empty());
    let mut i: usize = 1;
    while i < lines.len()
        invariant
            1 <= i <= lines.len(),
            ls == views(lines@),
            headers.wf(),
            text_map(headers) == header_map(ls.drop_first().take(i - 1)),
        decreases lines.len() - i,
    {
        let ghost t = ls.drop_first().take(i as int);
        assert(t.drop_last() =~= ls.drop_first().take(i - 1));
        assert(t.last() == lines@[i as int]@);
        let line = &lines[i];
        if let Some((k, v)) = split_once_char(line.as_str(), ':') {
            proof {
                let j = choose|j: int| first_index_of(line@, ':', j) && k@ == line@.take(j) && v@ == line@.skip(j + 1);
                let q = choose|q: int| first_index_of(line@, ':', q);
                lemma_first_index_unique(line@, ':', q, j);
            }
            let key = to_ascii_lower(trim_str(k.as_str()).as_str());
            let value = trim_str(v.as_str());
            insert_text(&mut headers, key.as_str(), value.as_str());
        }
        i += 1;
    }
    assert(ls.drop_first().take(lines.len() - 1) =~= ls.drop_first());
    Ok(RequestHead { method, path, query, headers })
}

proof fn lemma_split_seq_nonempty(s: Seq<char>, p: Seq<char>)
    ensures
        split_seq(s, p).len() > 0,
    decreases s.len(),
{
    if p.len() > 0 && exists|i: int| crate::text::first_occurrence(s, p, i) {
        let i = choose|i: int| crate::text::first_occurrence(s, p, i);
        assert(split_seq(s, p) == seq![s.take(i)] + split_seq(s.skip(i + p.len()), p));
    }
}

/// How a request's body is delimited.
#[derive(Debug, Clone, Copy, PartialEq, Eq, Structural)]
pub enum BodyFraming {
    Chunked,
    Length(usize),
}

/// The framing the headers announce: chunked when `transfer-encoding` mentions `chunked` in
/// any case, else the `content-length` when it is a `usize`, else an empty body.
pub open spec fn body_framing_of(headers: Map<Seq<char>, Seq<char>>) -> BodyFraming {
    if headers.contains_key("transfer-encoding"@) && crate::text::contains_seq(ascii_lower(headers["transfer-encoding"@]), "chunked"@) {
        BodyFraming::Chunked
    } else if headers.contains_key("content-length"@) {
        match bounded(unsigned_literal(headers["content-length"@]), usize::MAX as nat) {
            Some(n) => BodyFraming::Length(n as usize),
            None => BodyFraming::Length(0),
        }
    } else {
        BodyFraming::Length(0)
    }
}

/// The framing of a request's body.
pub fn body_framing(headers: &StrMap<String>) -> (r: BodyFraming)
    requires
        headers.wf(),
    ensures
        r == body_framing_of(text_map(*headers)),
{
    if let Some(te) = headers.get("transfer-encoding") {
        let lower = to_ascii_lower(te.as_str());
        if contains(lower.as_str(), "chunked") {
            return BodyFraming::Chunked;
        }
    }
    match headers.get("content-length") {
        Some(v) => match parse_usize(v.as_str()) {
            Some(n) => BodyFraming::Length(n),
            None => BodyFraming::Length(0),
        },
        None => BodyFraming::Length(0),
    }
}

} // verus!
