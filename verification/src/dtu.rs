//! The client side of the local GitHub API double (the DTU server): its address and token.
use crate::text::{cat, contains_char, first_index_of, last_index_of, owned, parse_u64, rsplit_once_char,
    split_char, split_on_char, strip_prefix, trim_end_matches, trim_end_matches_str, is_prefix,
    bounded, unsigned_literal, views};
use vstd::prelude::*;

pub mod actions;
pub mod artifacts;
pub mod broker;
pub mod cache;
pub mod chunked;
pub mod github;
pub mod http;
pub mod job_mapping;
pub mod logs;
pub mod outputs;
pub mod routes;
pub mod runner_api;
pub mod state;
pub mod util;

verus! {

/// A client of the DTU server's control API.
#[derive(Debug, Clone, PartialEq, Eq)]
pub struct DtuHttpClient {
    base_url: String,
    control_token: Option<String>,
}

impl DtuHttpClient {
    /// The server address, without trailing slashes.
    pub closed spec fn base_url_view(&self) -> Seq<char> {
        self.base_url@
    }

    /// The control token sent with requests, if any.
    pub closed spec fn token_view(&self) -> Option<Seq<char>> {
        match self.control_token {
            Some(t) => Some(t@),
            None => None,
        }
    }

    /// A client of the server at `base_url`, trailing slashes dropped, without a token.
    pub fn new(base_url: &str) -> (r: Self)
        ensures
            r.base_url_view() == trim_end_matches(base_url@, "/"@),
            r.token_view() is None,
    {
        DtuHttpClient { base_url: trim_end_matches_str(base_url, "/"), control_token: None }
    }

    /// A client of the server at `base_url` that sends `control_token`.
    pub fn with_control_token(base_url: &str, control_token: &str) -> (r: Self)
        ensures
            r.base_url_view() == trim_end_matches(base_url@, "/"@),
            r.token_view() == Some(control_token@),
    {
        DtuHttpClient { base_url: trim_end_matches_str(base_url, "/"), control_token: Some(owned(control_token)) }
    }

    /// The server address.
    pub fn base_url(&self) -> (r: &str)
        ensures
            r@ == self.base_url_view(),
    {
        self.base_url.as_str()
    }

    /// The control token, if any.
    pub fn control_token(&self) -> (r: Option<&str>)
        ensures
            match r {
                Some(t) => self.token_view() == Some(t@),
                None => self.token_view() is None,
            },
    {
        match &self.control_token {
            Some(t) => Some(t.as_str()),
            None => None,
        }
    }
}

/// Host and port of an `http://host:port[/...]` address, or why it is not one.
pub open spec fn http_base_spec(url: Seq<char>) -> Result<(Seq<char>, nat), Seq<char>> {
    if !is_prefix("http://"@, url) {
        Err("DTU URL must start with http://, got "@ + url)
    } else {
        let authority = split_char(url.skip(7), '/')[0];
        if !authority.contains(':') {
            Err("DTU URL must include a port, got "@ + url)
        } else {
            let colon = choose|i: int| last_index_of(authority, ':', i);
            match bounded(unsigned_literal(authority.skip(colon + 1)), u16::MAX as nat) {
                Some(port) => Ok((authority.take(colon), port)),
                None => Err("DTU URL has an invalid port, got "@ + url),
            }
        }
    }
}

/// Splits a DTU address into host and port.
pub fn parse_http_base_url(base_url: &str) -> (r: Result<(String, u16), String>)
    ensures
        match r {
            Ok(p) => http_base_spec(base_url@) == Ok::<(Seq<char>, nat), Seq<char>>((p.0@, p.1 as nat)),
            Err(e) => http_base_spec(base_url@) == Err::<(Seq<char>, nat), Seq<char>>(e@),
        },
{
    proof {
        reveal_strlit("http://");
    }
    let rest = match strip_prefix(base_url, "http://") {
        Some(r) => r,
        None => {
            return Err(cat("DTU URL must start with http://, got ", base_url));
        },
    };
    let pieces = split_on_char(rest.as_str(), '/');
    proof {
        crate::text::lemma_split_char_nonempty(rest@, '/');
    }
    assert(views(pieces@)[0] == pieces@[0]@);
    let authority = &pieces[0];
    let (host, port) = match rsplit_once_char(authority.as_str(), ':') {
        Some(p) => p,
        None => {
            return Err(cat("DTU URL must include a port, got ", base_url));
        },
    };
    proof {
        let i = choose|i: int| last_index_of(authority@, ':', i) && host@ == authority@.take(i) && port@ == authority@.skip(i + 1);
        assert forall|k: int| last_index_of(authority@, ':', k) implies k == i by {}
    }
    match parse_u64(port.as_str()) {
        Some(p) => if p <= 65535 {
            Ok((host, p as u16))
        } else {
            Err(cat("DTU URL has an invalid port, got ", base_url))
        },
        None => Err(cat("DTU URL has an invalid port, got ", base_url)),
    }
}

/// Fills the buffer with random bytes from the operating system with `getrandom::fill`,
/// reporting the crate's error as text. The contract claims only that the buffer keeps its
/// length; the bytes are whatever the system's random source gave.
#[verifier::external_body]
fn fill_random(dest: &mut Vec<u8>) -> (r: Result<(), String>)
    ensures
        final(dest)@.len() == old(dest)@.len(),
{
    getrandom::fill(dest.as_mut_slice()).map_err(|error| error.to_string())
}

/// The two lowercase hexadecimal digits of a byte.
pub open spec fn hex_pair(b: u8) -> Seq<char> {
    seq![crate::text::lower_hex_char((b / 16) as nat), crate::text::lower_hex_char((b % 16) as nat)]
}

/// Bytes written as lowercase hexadecimal, two digits each.
pub open spec fn hex_of(bytes: Seq<u8>) -> Seq<char>
    decreases bytes.len(),
{
    if bytes.len() == 0 {
        Seq::empty()
    } else {
        hex_of(bytes.drop_last()) + hex_pair(bytes.last())
    }
}

/// Bytes as lowercase hexadecimal text.
pub fn hex_encode(bytes: &Vec<u8>) -> (r: String)
    ensures
        r@ == hex_of(bytes@),
{
    let mut r = String::new();
    let mut i: usize = 0;
    while i < bytes.len()
        invariant
            i <= bytes.len(),
            r@ == hex_of(bytes@.take(i as int)),
        decreases bytes.len() - i,
    {
        let b = bytes[i];
        crate::text::push_char(&mut r, crate::text::hex_digit(b / 16));
        crate::text::push_char(&mut r, crate::text::hex_digit(b % 16));
        proof {
            assert(bytes@.take(i + 1).drop_last() =~= bytes@.take(i as int));
            assert(bytes@.take(i + 1).last() == b);
        }
        i += 1;
    }
    assert(bytes@.take(bytes.len() as int) =~= bytes@);
    r
}

/// A fresh control token for the DTU server: 32 random bytes as 64 lowercase hex digits, or
/// why the system could not supply them.
pub fn generate_control_token() -> (r: Result<String, String>)
    ensures
        match r {
            Ok(t) => exists|bytes: Seq<u8>| bytes.len() == 32 && t@ == hex_of(bytes),
            Err(e) => exists|m: Seq<char>| e@ == "failed to generate DTU control token: "@ + m,
        },
{
    let mut bytes: Vec<u8> = Vec::new();
    let mut i: usize = 0;
    while i < 32
        invariant
            i <= 32,
            bytes@.len() == i,
        decreases 32 - i,
    {
        bytes.push(0u8);
        i += 1;
    }
    match fill_random(&mut bytes) {
        Ok(()) => Ok(hex_encode(&bytes)),
        Err(e) => Err(cat("failed to generate DTU control token: ", e.as_str())),
    }
}

} // verus!
