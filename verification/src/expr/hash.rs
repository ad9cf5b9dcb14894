//! What `hashFiles` hashes: which files its patterns select, and the digest of their contents.
use crate::expr::ZERO_SHA;
use crate::runner_image::{sha256_hex, sha256_hex_of};
use crate::text::{is_prefix, strip_prefix, views};
use crate::workflow::{glob_check, glob_checked};
use vstd::prelude::*;

verus! {

/// A pattern without a leading `./`.
pub open spec fn dot_stripped(p: Seq<char>) -> Seq<char> {
    if is_prefix(seq!['.', '/'], p) {
        p.skip(2)
    } else {
        p
    }
}

/// A `hashFiles` pattern read as whether it excludes (a leading `!`) and the glob it uses.
pub open spec fn hash_pattern(p: Seq<char>) -> (bool, Seq<char>) {
    if p.len() > 0 && p[0] == '!' {
        (true, dot_stripped(p.drop_first()))
    } else {
        (false, dot_stripped(p))
    }
}

/// A file is selected when the last pattern whose glob parses and matches it includes it.
pub open spec fn hash_selected(file: Seq<char>, patterns: Seq<Seq<char>>) -> bool
    decreases patterns.len(),
{
    if patterns.len() == 0 {
        false
    } else {
        let (negative, glob) = hash_pattern(patterns.last());
        if glob_checked(glob, file) == Some(true) {
            !negative
        } else {
            hash_selected(file, patterns.drop_last())
        }
    }
}

/// The selected files, in the order given.
pub open spec fn selected_files(files: Seq<Seq<char>>, patterns: Seq<Seq<char>>) -> Seq<Seq<char>>
    decreases files.len(),
{
    if files.len() == 0 {
        Seq::empty()
    } else if hash_selected(files.last(), patterns) {
        selected_files(files.drop_last(), patterns).push(files.last())
    } else {
        selected_files(files.drop_last(), patterns)
    }
}

/// The last matching pattern decides: a file that an appended exclusion (`!glob`) matches is
/// not hashed, whatever came before, and one it does not match is hashed exactly when it was
/// without it.
pub proof fn lemma_appended_exclusion(file: Seq<char>, patterns: Seq<Seq<char>>, glob: Seq<char>)
    ensures
        glob_checked(dot_stripped(glob), file) == Some(true) ==> !hash_selected(file, patterns.push(seq!['!'] + glob)),
        glob_checked(dot_stripped(glob), file) != Some(true)
            ==> hash_selected(file, patterns.push(seq!['!'] + glob)) == hash_selected(file, patterns),
{
    let all = patterns.push(seq!['!'] + glob);
    assert((seq!['!'] + glob).drop_first() =~= glob);
    assert(all.last() == seq!['!'] + glob);
    assert(all.drop_last() =~= patterns);
}

fn pattern_parts(p: &str) -> (r: (bool, String))
    ensures
        r.0 == hash_pattern(p@).0,
        r.1@ == hash_pattern(p@).1,
{
    let (negative, rest) = match strip_prefix(p, "!") {
        Some(rest) => (true, rest),
        None => (false, p.to_owned()),
    };
    proof {
        reveal_strlit("!");
        reveal_strlit("./");
        if p@.len() > 0 && p@[0] == '!' {
            assert(p@.subrange(0, 1) =~= "!"@);
            assert(p@.skip(1) =~= p@.drop_first());
        } else if is_prefix("!"@, p@) {
            assert(p@[0] == p@.subrange(0, 1)[0]);
        }
        assert("./"@ =~= seq!['.', '/']);
    }
    let glob = match strip_prefix(rest.as_str(), "./") {
        Some(g) => g,
        None => rest,
    };
    (negative, glob)
}

fn selected_by(file: &str, patterns: &Vec<String>) -> (r: bool)
    ensures
        r == hash_selected(file@, views(patterns@)),
{
    let mut i = patterns.len();
    assert(views(patterns@).take(i as int) =~= views(patterns@));
    while i > 0
        invariant
            i <= patterns.len(),
            hash_selected(file@, views(patterns@)) == hash_selected(file@, views(patterns@).take(i as int)),
        decreases i,
    {
        let ghost ps = views(patterns@).take(i as int);
        assert(ps.last() == patterns@[i - 1]@);
        assert(ps.drop_last() =~= views(patterns@).take(i - 1));
        let (negative, glob) = pattern_parts(patterns[i - 1].as_str());
        if glob_check(glob.as_str(), file) == Some(true) {
            return !negative;
        }
        i -= 1;
    }
    assert(views(patterns@).take(0) =~= Seq::<Seq<char>>::empty());
    false
}

/// The files `hashFiles` hashes, in the order given: each file the last pattern that matches
/// it includes. A pattern with a leading `!` excludes; a leading `./` is dropped before the
/// glob is parsed, and a glob that does not parse matches nothing.
pub fn hash_files_selection(files: &Vec<String>, patterns: &Vec<String>) -> (r: Vec<String>)
    ensures
        views(r@) == selected_files(views(files@), views(patterns@)),
{
    let mut r: Vec<String> = Vec::new();
    let mut i: usize = 0;
    assert(views(files@).take(0) =~= Seq::<Seq<char>>::empty());
    assert(views(r@) =~= Seq::<Seq<char>>::empty());
    while i < files.len()
        invariant
            i <= files.len(),
            views(r@) == selected_files(views(files@).take(i as int), views(patterns@)),
        decreases files.len() - i,
    {
        let ghost fs = views(files@).take(i + 1);
        assert(fs.drop_last() =~= views(files@).take(i as int));
        assert(fs.last() == files@[i as int]@);
        if selected_by(files[i].as_str(), patterns) {
            let ghost before = views(r@);
            r.push(files[i].clone());
            assert(views(r@) =~= before.push(files@[i as int]@));
        }
        i += 1;
    }
    assert(views(files@).take(files.len() as int) =~= views(files@));
    r
}

/// The bytes of the files that could be read, one after another.
pub open spec fn present_bytes(contents: Seq<Option<Vec<u8>>>) -> Seq<u8>
    decreases contents.len(),
{
    if contents.len() == 0 {
        Seq::empty()
    } else {
        present_bytes(contents.drop_last()) + match contents.last() {
            Some(b) => b@,
            None => Seq::empty(),
        }
    }
}

/// The digest of the selected files: all zeros when none was selected, else the SHA-256 of the
/// contents of those that could be read, in order (`None` stands for one that could not).
pub fn hash_files_digest(contents: &Vec<Option<Vec<u8>>>) -> (r: String)
    ensures
        r@ == if contents@.len() == 0 { ZERO_SHA@ } else { sha256_hex(present_bytes(contents@)) },
{
    if contents.len() == 0 {
        return ZERO_SHA.to_owned();
    }
    let mut data: Vec<u8> = Vec::new();
    let mut i: usize = 0;
    assert(contents@.take(0) =~= Seq::<Option<Vec<u8>>>::empty());
    while i < contents.len()
        invariant
            i <= contents.len(),
            data@ == present_bytes(contents@.take(i as int)),
        decreases contents.len() - i,
    {
        let ghost cs = contents@.take(i + 1);
        assert(cs.drop_last() =~= contents@.take(i as int));
        assert(cs.last() == contents@[i as int]);
        let ghost before = data@;
        match &contents[i] {
            Some(bytes) => {
                let mut k: usize = 0;
                while k < bytes.len()
                    invariant
                        k <= bytes.len(),
                        data@ == before + bytes@.take(k as int),
                    decreases bytes.len() - k,
                {
                    data.push(bytes[k]);
                    assert(bytes@.take(k + 1) =~= bytes@.take(k as int).push(bytes@[k as int]));
                    k += 1;
                }
                assert(bytes@.take(bytes.len() as int) =~= bytes@);
            },
            None => {
                assert(before + Seq::<u8>::empty() =~= before);
            },
        }
        i += 1;
    }
    assert(contents@.take(contents.len() as int) =~= contents@);
    sha256_hex_of(data.as_slice())
}

} // verus!
