//! The numbers the DTU server keeps in cache locations.
use crate::text::{bounded, parse_u64, split_char, split_on_char, trim_end_matches, trim_end_matches_str, unsigned_literal, views};
use vstd::prelude::*;

verus! {

/// The cache id at the end of an archive location: its last `/`-separated piece once trailing
/// slashes are dropped, read as a 64-bit number.
pub open spec fn cache_id_spec(location: Seq<char>) -> Option<nat> {
    let pieces = split_char(trim_end_matches(location, "/"@), '/');
    bounded(unsigned_literal(pieces.last()), u64::MAX as nat)
}

/// The cache id an archive location ends with.
pub fn cache_id_from_archive_location(location: &str) -> (r: Option<u64>)
    ensures
        match r {
            Some(v) => cache_id_spec(location@) == Some(v as nat),
            None => cache_id_spec(location@) is None,
        },
{
    proof { reveal_strlit("/"); }
    let trimmed = trim_end_matches_str(location, "/");
    let pieces = split_on_char(trimmed.as_str(), '/');
    proof { crate::text::lemma_split_char_nonempty(trimmed@, '/'); }
    let last = pieces.len() - 1;
    assert(views(pieces@)[last as int] == pieces@[last as int]@);
    parse_u64(pieces[last].as_str())
}

} // verus!
