//! The runner's action download information: where each action a job uses can be fetched, and
//! the commit it is pinned to.
use crate::json::{in_get, input_items_view, lemma_input_items_view, object1, object_of, opt_in_str, push_entry, string,
    value_entries_view, JIn, Json, JsonInput, JsonValue};
use crate::runner_image::lower_hex_digit;
use crate::text::{cat, first_index_of, is_prefix, split_once_char, starts_with};
use sha1::Digest;
use vstd::prelude::*;
use vstd::utf8::encode_utf8;

verus! {

/// The lowercase hexadecimal SHA-1 digest of some bytes.
pub uninterp spec fn sha1_hex(data: Seq<u8>) -> Seq<char>;

/// Hashes the bytes with `sha1::Sha1::digest` and writes the digest with `{:x}`. The contract
/// names the digest text and states what generic-array's lower-hex formatting shows: two
/// lowercase hexadecimal digits for each of the 20 digest bytes.
#[verifier::external_body]
pub(crate) fn sha1_hex_of(data: &[u8]) -> (r: String)
    ensures
        r@ == sha1_hex(data@),
        r@.len() == 40,
        forall|i: int| 0 <= i < 40 ==> lower_hex_digit(#[trigger] r@[i]),
{
    format!("{:x}", sha1::Sha1::digest(data))
}

/// The text before the first `/`.
pub open spec fn before_slash(s: Seq<char>) -> Seq<char> {
    s.take(choose|i: int| first_index_of(s, '/', i))
}

/// The text after the first `/`.
pub open spec fn after_slash(s: Seq<char>) -> Seq<char> {
    s.skip((choose|i: int| first_index_of(s, '/', i)) + 1)
}

/// The owner and repository an action name starts with: the text before its first `/`, and
/// the text after it up to the next `/` (or to the end); `None` for a name without `/`.
pub open spec fn owner_repo(name: Seq<char>) -> Option<(Seq<char>, Seq<char>)> {
    if name.contains('/') {
        let rest = after_slash(name);
        Some((before_slash(name), if rest.contains('/') { before_slash(rest) } else { rest }))
    } else {
        None
    }
}

/// What the runner is told of one action.
pub open spec fn action_json(name: Seq<char>, reference: Seq<char>, sha: Seq<char>, url: Seq<char>) -> Json {
    Json::Object(seq![
        ("nameWithOwner"@, Json::Str(name)),
        ("resolvedNameWithOwner"@, Json::Str(name)),
        ("ref"@, Json::Str(reference)),
        ("resolvedSha"@, Json::Str(sha)),
        ("tarballUrl"@, Json::Str(url)),
        ("zipballUrl"@, Json::Str(url)),
        ("authentication"@, Json::Null),
    ])
}

/// The entry of one requested action: an action with a string `nameWithOwner` that is not a
/// local `./` path, a string `ref` and an owner and repository is keyed `name@ref`, pinned to
/// the SHA-1 of that key and fetched from the tarball route under `tarball_base`; any other is
/// left out.
pub open spec fn action_entry(a: JIn, tarball_base: Seq<char>) -> Option<(Seq<char>, Json)> {
    match opt_in_str(in_get(a, "nameWithOwner"@)) {
        None => None,
        Some(name) => if is_prefix("./"@, name) {
            None
        } else {
            match opt_in_str(in_get(a, "ref"@)) {
                None => None,
                Some(reference) => match owner_repo(name) {
                    None => None,
                    Some((owner, repo)) => {
                        let key = name + "@"@ + reference;
                        let url = tarball_base + "/_dtu/action-tarball/"@ + owner + "/"@ + repo + "/"@ + reference;
                        Some((key, action_json(name, reference, sha1_hex(encode_utf8(key)), url)))
                    },
                },
            }
        },
    }
}

/// The entries of the requested actions, in order (a later entry with the same key replaces
/// an earlier one when the object is written out).
pub open spec fn action_entries(items: Seq<JIn>, tarball_base: Seq<char>) -> Seq<(Seq<char>, Json)>
    decreases items.len(),
{
    if items.len() == 0 {
        Seq::empty()
    } else {
        let rest = action_entries(items.drop_last(), tarball_base);
        match action_entry(items.last(), tarball_base) {
            Some(e) => rest.push(e),
            None => rest,
        }
    }
}

/// The actions a payload requests: the items of its `actions` array, if it has one.
pub open spec fn requested_actions(payload: JIn) -> Seq<JIn> {
    match in_get(payload, "actions"@) {
        Some(JIn::Array(items, _)) => items,
        _ => Seq::empty(),
    }
}

/// The first `/` of a text, split off: the parts before and after it.
fn split_slash(s: &str) -> (r: Option<(String, String)>)
    ensures
        r is Some <==> s@.contains('/'),
        r matches Some(p) ==> p.0@ == before_slash(s@) && p.1@ == after_slash(s@),
{
    let r = split_once_char(s, '/');
    proof {
        if r is Some {
            let p = r->0;
            let i = choose|i: int| first_index_of(s@, '/', i) && p.0@ == s@.take(i) && p.1@ == s@.skip(i + 1);
            let j = choose|j: int| first_index_of(s@, '/', j);
            assert(first_index_of(s@, '/', j));
            if i < j {
                assert(s@[i] != '/');
            } else if j < i {
                assert(s@[j] != '/');
            }
        }
    }
    r
}

/// The entry of one requested action (see `action_entry`).
fn download_entry(a: &JsonInput, tarball_base: &str) -> (r: Option<(String, JsonValue)>)
    ensures
        match r {
            Some(e) => action_entry(a@, tarball_base@) == Some((e.0@, e.1@)),
            None => action_entry(a@, tarball_base@) is None,
        },
{
    let name = match a.get("nameWithOwner") {
        Some(v) => match v.as_str() {
            Some(n) => n,
            None => return None,
        },
        None => return None,
    };
    if starts_with(name, "./") {
        return None;
    }
    let reference = match a.get("ref") {
        Some(v) => match v.as_str() {
            Some(x) => x,
            None => return None,
        },
        None => return None,
    };
    let (owner, rest) = match split_slash(name) {
        Some(p) => p,
        None => return None,
    };
    let repo = match split_slash(rest.as_str()) {
        Some(p) => p.0,
        None => rest,
    };
    let mut key = cat(name, "@");
    key.append(reference);
    let mut url = cat(tarball_base, "/_dtu/action-tarball/");
    url.append(owner.as_str());
    url.append("/");
    url.append(repo.as_str());
    url.append("/");
    url.append(reference);
    let bytes = key.as_str().as_bytes();
    proof {
        reveal_strlit("./");
        reveal_strlit("@");
        reveal_strlit("/_dtu/action-tarball/");
        reveal_strlit("/");
        assert(bytes@ == encode_utf8(key@));
        assert(key@ == name@ + "@"@ + reference@);
        assert(url@ == tarball_base@ + "/_dtu/action-tarball/"@ + owner@ + "/"@ + repo@ + "/"@ + reference@);
        assert(owner_repo(name@) == Some((owner@, repo@)));
    }
    let sha = sha1_hex_of(bytes);
    let mut fields: Vec<(String, JsonValue)> = Vec::new();
    push_entry(&mut fields, "nameWithOwner", string(name));
    push_entry(&mut fields, "resolvedNameWithOwner", string(name));
    push_entry(&mut fields, "ref", string(reference));
    push_entry(&mut fields, "resolvedSha", JsonValue::Str(sha));
    push_entry(&mut fields, "tarballUrl", string(url.as_str()));
    push_entry(&mut fields, "zipballUrl", JsonValue::Str(url));
    push_entry(&mut fields, "authentication", JsonValue::Null);
    proof {
        reveal_strlit("nameWithOwner");
        reveal_strlit("resolvedNameWithOwner");
        reveal_strlit("ref");
        reveal_strlit("resolvedSha");
        reveal_strlit("tarballUrl");
        reveal_strlit("zipballUrl");
        reveal_strlit("authentication");
        assert(value_entries_view(fields@) =~= seq![
            ("nameWithOwner"@, Json::Str(name@)),
            ("resolvedNameWithOwner"@, Json::Str(name@)),
            ("ref"@, Json::Str(reference@)),
            ("resolvedSha"@, Json::Str(sha1_hex(encode_utf8(key@)))),
            ("tarballUrl"@, Json::Str(url@)),
            ("zipballUrl"@, Json::Str(url@)),
            ("authentication"@, Json::Null),
        ]);
    }
    let value = object_of(fields);
    Some((key, value))
}

/// Answers the runner's request for action download information: an `actions` object with the
/// entry of each requested action (see `action_entry`), the tarballs fetched from under
/// `tarball_base`.
pub fn action_download_info(payload: &JsonInput, tarball_base: &str) -> (r: JsonValue)
    ensures
        r@ == Json::Object(seq![("actions"@, Json::Object(action_entries(requested_actions(payload@), tarball_base@)))]),
{
    let mut entries: Vec<(String, JsonValue)> = Vec::new();
    match payload.get("actions") {
        Some(JsonInput::Array(list, _)) => {
            proof { lemma_input_items_view(list@); }
            let ghost model = input_items_view(list@);
            let mut i: usize = 0;
            assert(model.take(0) =~= Seq::<JIn>::empty());
            while i < list.len()
                invariant
                    i <= list.len(),
                    model == input_items_view(list@),
                    model.len() == list.len(),
                    forall|j: int| 0 <= j < list.len() ==> #[trigger] model[j] == list[j]@,
                    value_entries_view(entries@) == action_entries(model.take(i as int), tarball_base@),
                decreases list.len() - i,
            {
                assert(model.take(i + 1).drop_last() =~= model.take(i as int));
                assert(model.take(i + 1).last() == model[i as int]);
                match download_entry(&list[i], tarball_base) {
                    Some((k, v)) => push_entry(&mut entries, k.as_str(), v),
                    None => {},
                }
                i += 1;
            }
            assert(model.take(list.len() as int) =~= model);
        },
        _ => {},
    }
    proof { reveal_strlit("actions"); }
    object1("actions", object_of(entries))
}

} // verus!
