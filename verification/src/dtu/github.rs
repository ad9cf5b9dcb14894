//! The compare endpoint of the DTU server: the checks on its refs, and the changed files read
//! from `git diff --name-status`.
use crate::text::{chars_of, char_is_alnum, is_ascii_alnum, lines, lines_of, owned, split_char, split_on_char, split_seq, split_str, views};
use crate::json::{array_of, number, obj1, object1, object_of, push_entry, push_item, string, value_entries_view,
    value_items_view, Json, JsonValue};
use vstd::prelude::*;

verus! {

/// A character a revision may hold.
pub open spec fn revision_char(c: char) -> bool {
    is_ascii_alnum(c) || c == '.' || c == '_' || c == '/' || c == '@' || c == '+' || c == '~' || c == '^' || c == '-'
}

/// A revision that is safe to hand to `git rev-parse`: non-empty, at most 200 characters, not
/// starting with `-`, and made of letters, digits and `._/@+~^-` only.
pub open spec fn safe_revision(r: Seq<char>) -> bool {
    &&& r.len() > 0
    &&& r.len() <= 200
    &&& r[0] != '-'
    &&& forall|i: int| 0 <= i < r.len() ==> revision_char(#[trigger] r[i])
}

/// Whether a revision is safe to hand to git.
pub fn is_safe_git_revision(revision: &str) -> (r: bool)
    ensures
        r == safe_revision(revision@),
{
    let x = chars_of(revision);
    if x.len() == 0 || x.len() > 200 || x[0] == '-' {
        return false;
    }
    let mut i: usize = 0;
    while i < x.len()
        invariant
            x@ == revision@,
            i <= x.len(),
            forall|j: int| 0 <= j < i ==> revision_char(#[trigger] x@[j]),
        decreases x.len() - i,
    {
        let c = x[i];
        if !(char_is_alnum(c) || c == '.' || c == '_' || c == '/' || c == '@' || c == '+' || c == '~' || c == '^' || c == '-') {
            return false;
        }
        i += 1;
    }
    true
}

/// The pieces of each part, in order.
pub open spec fn split_all(parts: Seq<Seq<char>>, p: Seq<char>) -> Seq<Seq<char>>
    decreases parts.len(),
{
    if parts.len() == 0 {
        Seq::empty()
    } else {
        split_all(parts.drop_last(), p) + split_seq(parts.last(), p)
    }
}

/// The parts of a `base...head` (or `base..head`) compare argument.
pub open spec fn basehead_parts(basehead: Seq<char>) -> Seq<Seq<char>> {
    split_all(split_seq(basehead, "..."@), ".."@)
}

/// The base and head of a compare argument: exactly two non-empty parts.
pub open spec fn basehead_spec(basehead: Seq<char>) -> Option<(Seq<char>, Seq<char>)> {
    let parts = basehead_parts(basehead);
    if parts.len() == 2 && parts[0].len() > 0 && parts[1].len() > 0 {
        Some((parts[0], parts[1]))
    } else {
        None
    }
}

/// Splits a compare argument into base and head.
pub fn split_basehead(basehead: &str) -> (r: Option<(String, String)>)
    ensures
        match r {
            Some(p) => basehead_spec(basehead@) == Some((p.0@, p.1@)),
            None => basehead_spec(basehead@) is None,
        },
{
    proof {
        reveal_strlit("...");
        reveal_strlit("..");
    }
    let outer = split_str(basehead, "...");
    let ghost outer_v = views(outer@);
    let mut parts: Vec<String> = Vec::new();
    let mut i: usize = 0;
    assert(outer_v.take(0) =~= Seq::<Seq<char>>::empty());
    assert(views(parts@) =~= split_all(outer_v.take(0), ".."@));
    while i < outer.len()
        invariant
            outer_v == views(outer@),
            i <= outer@.len(),
            views(parts@) == split_all(outer_v.take(i as int), ".."@),
        decreases outer.len() - i,
    {
        proof { reveal_strlit(".."); }
        let pieces = split_str(outer[i].as_str(), "..");
        let ghost before = views(parts@);
        let mut t: usize = 0;
        while t < pieces.len()
            invariant
                t <= pieces@.len(),
                views(parts@) == before + views(pieces@).take(t as int),
            decreases pieces.len() - t,
        {
            let ghost bp = views(parts@);
            parts.push(pieces[t].clone());
            assert(views(parts@) =~= bp.push(pieces@[t as int]@));
            assert(views(pieces@).take(t + 1) =~= views(pieces@).take(t as int).push(pieces@[t as int]@));
            t += 1;
        }
        assert(views(pieces@).take(pieces@.len() as int) =~= views(pieces@));
        assert(outer_v.take(i + 1).drop_last() =~= outer_v.take(i as int));
        assert(outer_v.take(i + 1).last() == outer@[i as int]@);
        i += 1;
    }
    assert(outer_v.take(outer@.len() as int) =~= outer_v);
    if parts.len() != 2 {
        return None;
    }
    assert(views(parts@)[0] == parts@[0]@ && views(parts@)[1] == parts@[1]@);
    let base = parts[0].clone();
    let head = parts[1].clone();
    if base.as_str().unicode_len() == 0 || head.as_str().unicode_len() == 0 {
        return None;
    }
    Some((base, head))
}

/// GitHub's word for a `git diff --name-status` status letter.
pub open spec fn change_status_word(c: char) -> Seq<char> {
    if c == 'A' {
        "added"@
    } else if c == 'D' {
        "removed"@
    } else if c == 'R' {
        "renamed"@
    } else {
        "modified"@
    }
}

/// The file and status of one `--name-status` line: tab-separated status and paths, the new
/// path of a rename (status starting with `R`) being the third field; a line without that
/// field names no file. An empty status counts as modified.
pub open spec fn diff_line_spec(line: Seq<char>) -> Option<(Seq<char>, Seq<char>)> {
    let parts = split_char(line, '\t');
    let raw = parts[0];
    let renamed = raw.len() > 0 && raw[0] == 'R';
    let at: int = if renamed { 2 } else { 1 };
    let status = if raw.len() > 0 { change_status_word(raw[0]) } else { "modified"@ };
    if at < parts.len() {
        Some((parts[at], status))
    } else {
        None
    }
}

/// The changed files of every line that names one, in order.
pub open spec fn changed_files_of(ls: Seq<Seq<char>>) -> Seq<(Seq<char>, Seq<char>)>
    decreases ls.len(),
{
    if ls.len() == 0 {
        Seq::empty()
    } else {
        match diff_line_spec(ls.last()) {
            Some(f) => changed_files_of(ls.drop_last()).push(f),
            None => changed_files_of(ls.drop_last()),
        }
    }
}

pub open spec fn pairs_view(v: Seq<(String, String)>) -> Seq<(Seq<char>, Seq<char>)> {
    Seq::new(v.len(), |i: int| (v[i].0@, v[i].1@))
}

/// Reads one `--name-status` line.
pub fn diff_line(line: &str) -> (r: Option<(String, String)>)
    ensures
        match r {
            Some(f) => diff_line_spec(line@) == Some((f.0@, f.1@)),
            None => diff_line_spec(line@) is None,
        },
{
    proof {
        crate::text::lemma_split_char_nonempty(line@, '\t');
        reveal_strlit("added");
        reveal_strlit("removed");
        reveal_strlit("renamed");
        reveal_strlit("modified");
    }
    let parts = split_on_char(line, '\t');
    let raw = chars_of(parts[0].as_str());
    assert(views(parts@)[0] == parts@[0]@);
    let renamed = raw.len() > 0 && raw[0] == 'R';
    let at: usize = if renamed { 2 } else { 1 };
    let status = if raw.len() == 0 {
        owned("modified")
    } else if raw[0] == 'A' {
        owned("added")
    } else if raw[0] == 'D' {
        owned("removed")
    } else if raw[0] == 'R' {
        owned("renamed")
    } else {
        owned("modified")
    };
    if at < parts.len() {
        assert(views(parts@)[at as int] == parts@[at as int]@);
        Some((parts[at].clone(), status))
    } else {
        None
    }
}

/// The changed files listed by `git diff --name-status` output, in order.
pub fn parse_name_status(output: &str) -> (r: Vec<(String, String)>)
    ensures
        pairs_view(r@) == changed_files_of(lines_of(output@)),
{
    let ls = lines(output);
    let ghost lv = views(ls@);
    let mut r: Vec<(String, String)> = Vec::new();
    let mut i: usize = 0;
    while i < ls.len()
        invariant
            i <= ls.len(),
            lv == views(ls@),
            lv == lines_of(output@),
            pairs_view(r@) == changed_files_of(lv.take(i as int)),
        decreases ls.len() - i,
    {
        assert(lv.take(i + 1).drop_last() =~= lv.take(i as int));
        assert(lv[i as int] == ls@[i as int]@);
        match diff_line(ls[i].as_str()) {
            Some(f) => {
                r.push(f);
                assert(pairs_view(r@) =~= changed_files_of(lv.take(i as int)).push((f.0@, f.1@)));
            },
            None => {},
        }
        i += 1;
    }
    assert(lv.take(ls.len() as int) =~= lv);
    r
}

/// The answer to a compare request that is refused or needs no repository: a basehead that is
/// not `base...head` (or `base..head`) is 422 "Invalid basehead format"; without a repository
/// the comparison is identical with no files; a revision that is not a safe git revision is
/// 422 "Invalid basehead ref". `None` where the revisions are to be resolved.
pub open spec fn compare_early(basehead: Seq<char>, repo_known: bool) -> Option<(u16, Json)> {
    match basehead_spec(basehead) {
        None => Some((422u16, obj1("message"@, Json::Str("Invalid basehead format"@)))),
        Some((base, head)) => if !repo_known {
            Some((200u16, identical_comparison()))
        } else if !safe_revision(base) || !safe_revision(head) {
            Some((422u16, invalid_ref()))
        } else {
            None
        },
    }
}

/// A comparison of two equal trees.
pub open spec fn identical_comparison() -> Json {
    Json::Object(seq![
        ("status"@, Json::Str("identical"@)),
        ("files"@, Json::Array(Seq::empty())),
        ("total_commits"@, Json::Number("0"@)),
        ("commits"@, Json::Array(Seq::empty())),
    ])
}

/// The refusal of a revision that is unsafe or does not name a commit.
pub open spec fn invalid_ref() -> Json {
    obj1("message"@, Json::Str("Invalid basehead ref"@))
}

/// How a compare request starts: the early answer where there is one (see `compare_early`),
/// otherwise the base and head revisions to resolve to commits.
pub fn compare_start(basehead: &str, repo_known: bool) -> (r: Result<(String, String), (u16, JsonValue)>)
    ensures
        match r {
            Err(a) => compare_early(basehead@, repo_known) == Some((a.0, a.1@)),
            Ok(p) => compare_early(basehead@, repo_known) is None && basehead_spec(basehead@) == Some((p.0@, p.1@)),
        },
{
    proof {
        reveal_strlit("message");
        reveal_strlit("Invalid basehead format");
    }
    let (base, head) = match split_basehead(basehead) {
        Some(p) => p,
        None => return Err((422, object1("message", string("Invalid basehead format")))),
    };
    if !repo_known {
        return Err((200, identical_comparison_value()));
    }
    if !is_safe_git_revision(base.as_str()) || !is_safe_git_revision(head.as_str()) {
        return Err((422, invalid_ref_value()));
    }
    Ok((base, head))
}

fn identical_comparison_value() -> (r: JsonValue)
    ensures
        r@ == identical_comparison(),
{
    let mut e: Vec<(String, JsonValue)> = Vec::new();
    push_entry(&mut e, "status", string("identical"));
    push_entry(&mut e, "files", JsonValue::Array(Vec::new()));
    push_entry(&mut e, "total_commits", number("0"));
    push_entry(&mut e, "commits", JsonValue::Array(Vec::new()));
    proof {
        reveal_strlit("status");
        reveal_strlit("identical");
        reveal_strlit("files");
        reveal_strlit("total_commits");
        reveal_strlit("0");
        reveal_strlit("commits");
        assert(value_items_view(Seq::<JsonValue>::empty()) =~= Seq::<Json>::empty());
        assert(value_entries_view(e@) =~= seq![
            ("status"@, Json::Str("identical"@)),
            ("files"@, Json::Array(Seq::empty())),
            ("total_commits"@, Json::Number("0"@)),
            ("commits"@, Json::Array(Seq::empty())),
        ]);
    }
    object_of(e)
}

/// The refusal of a revision that is unsafe or does not name a commit: 422 with its message.
pub fn invalid_ref_value() -> (r: JsonValue)
    ensures
        r@ == invalid_ref(),
{
    proof {
        reveal_strlit("message");
        reveal_strlit("Invalid basehead ref");
    }
    object1("message", string("Invalid basehead ref"))
}

/// One changed file of a comparison.
pub open spec fn file_json(f: (Seq<char>, Seq<char>)) -> Json {
    Json::Object(seq![
        ("sha"@, Json::Str("0000000000000000000000000000000000000000"@)),
        ("filename"@, Json::Str(f.0)),
        ("status"@, Json::Str(f.1)),
        ("additions"@, Json::Number("0"@)),
        ("deletions"@, Json::Number("0"@)),
        ("changes"@, Json::Number("0"@)),
    ])
}

/// The comparison of two resolved commits from `git diff --name-status` output (`None` where
/// the diff failed, which reads as no files): "identical" without changed files, "ahead" with.
pub open spec fn comparison_of(diff: Option<Seq<char>>) -> Json {
    let files = match diff {
        Some(out) => changed_files_of(lines_of(out)),
        None => Seq::empty(),
    };
    Json::Object(seq![
        ("status"@, Json::Str(if files.len() == 0 { "identical"@ } else { "ahead"@ })),
        ("total_commits"@, Json::Number("1"@)),
        ("commits"@, Json::Array(Seq::empty())),
        ("files"@, Json::Array(files.map_values(|f: (Seq<char>, Seq<char>)| file_json(f)))),
    ])
}

fn file_value(name: &str, status: &str) -> (r: JsonValue)
    ensures
        r@ == file_json((name@, status@)),
{
    let mut e: Vec<(String, JsonValue)> = Vec::new();
    push_entry(&mut e, "sha", string("0000000000000000000000000000000000000000"));
    push_entry(&mut e, "filename", string(name));
    push_entry(&mut e, "status", string(status));
    push_entry(&mut e, "additions", number("0"));
    push_entry(&mut e, "deletions", number("0"));
    push_entry(&mut e, "changes", number("0"));
    proof {
        reveal_strlit("sha");
        reveal_strlit("0000000000000000000000000000000000000000");
        reveal_strlit("filename");
        reveal_strlit("status");
        reveal_strlit("additions");
        reveal_strlit("deletions");
        reveal_strlit("changes");
        reveal_strlit("0");
        assert(value_entries_view(e@) =~= seq![
            ("sha"@, Json::Str("0000000000000000000000000000000000000000"@)),
            ("filename"@, Json::Str(name@)),
            ("status"@, Json::Str(status@)),
            ("additions"@, Json::Number("0"@)),
            ("deletions"@, Json::Number("0"@)),
            ("changes"@, Json::Number("0"@)),
        ]);
    }
    object_of(e)
}

/// The answer to a compare request whose revisions resolved to commits, from the output of
/// `git diff --name-status` between them (`None` where the diff failed).
pub fn compare_response(diff: Option<String>) -> (r: JsonValue)
    ensures
        r@ == comparison_of(match diff {
            Some(d) => Some(d@),
            None => None,
        }),
{
    let files = match &diff {
        Some(out) => parse_name_status(out.as_str()),
        None => Vec::new(),
    };
    let ghost fs = match diff {
        Some(d) => changed_files_of(lines_of(d@)),
        None => Seq::<(Seq<char>, Seq<char>)>::empty(),
    };
    assert(pairs_view(files@) =~= fs);
    let mut items: Vec<JsonValue> = Vec::new();
    let mut i: usize = 0;
    while i < files.len()
        invariant
            i <= files.len(),
            pairs_view(files@) == fs,
            value_items_view(items@) == fs.take(i as int).map_values(|f: (Seq<char>, Seq<char>)| file_json(f)),
        decreases files.len() - i,
    {
        assert(fs[i as int] == (files[i as int].0@, files[i as int].1@));
        let v = file_value(files[i].0.as_str(), files[i].1.as_str());
        push_item(&mut items, v);
        assert(fs.take(i + 1).map_values(|f: (Seq<char>, Seq<char>)| file_json(f))
            =~= fs.take(i as int).map_values(|f: (Seq<char>, Seq<char>)| file_json(f)).push(file_json(fs[i as int])));
        i += 1;
    }
    assert(fs.take(files.len() as int) =~= fs);
    let empty = files.len() == 0;
    let mut e: Vec<(String, JsonValue)> = Vec::new();
    push_entry(&mut e, "status", string(if empty { "identical" } else { "ahead" }));
    push_entry(&mut e, "total_commits", number("1"));
    push_entry(&mut e, "commits", JsonValue::Array(Vec::new()));
    push_entry(&mut e, "files", array_of(items));
    proof {
        reveal_strlit("status");
        reveal_strlit("identical");
        reveal_strlit("ahead");
        reveal_strlit("total_commits");
        reveal_strlit("1");
        reveal_strlit("commits");
        reveal_strlit("files");
        assert(value_items_view(Seq::<JsonValue>::empty()) =~= Seq::<Json>::empty());
        assert(fs.len() == files.len());
        assert(value_entries_view(e@) =~= seq![
            ("status"@, Json::Str(if fs.len() == 0 { "identical"@ } else { "ahead"@ })),
            ("total_commits"@, Json::Number("1"@)),
            ("commits"@, Json::Array(Seq::empty())),
            ("files"@, Json::Array(fs.map_values(|f: (Seq<char>, Seq<char>)| file_json(f)))),
        ]);
    }
    object_of(e)
}

} // verus!
