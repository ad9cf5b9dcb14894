//! Reading block lists of artifact uploads.
use crate::text::{split_seq, split_str, views};
use vstd::prelude::*;

verus! {

/// The block ids of a block list: the text after each `<Latest>` up to the next `</Latest>`.
pub open spec fn latest_ids(xml: Seq<char>) -> Seq<Seq<char>> {
    let parts = split_seq(xml, "<Latest>"@).skip(1);
    Seq::new(parts.len(), |i: int| split_seq(parts[i], "</Latest>"@)[0])
}

proof fn lemma_split_seq_nonempty(s: Seq<char>, p: Seq<char>)
    ensures
        split_seq(s, p).len() > 0,
{
    if p.len() > 0 && exists|i: int| crate::text::first_occurrence(s, p, i) {
        let i = choose|i: int| crate::text::first_occurrence(s, p, i);
        assert(split_seq(s, p)[0] == s.take(i));
    }
}

/// The block ids named by a block list.
pub fn latest_block_ids(xml: &str) -> (r: Vec<String>)
    ensures
        views(r@) == latest_ids(xml@),
{
    proof {
        reveal_strlit("<Latest>");
        reveal_strlit("</Latest>");
        lemma_split_seq_nonempty(xml@, "<Latest>"@);
    }
    let parts = split_str(xml, "<Latest>");
    let mut r: Vec<String> = Vec::new();
    let mut i: usize = 1;
    let ghost want = latest_ids(xml@);
    assert(views(parts@).skip(1).len() == parts@.len() - 1);
    while i < parts.len()
        invariant
            1 <= i <= parts@.len(),
            views(parts@) == split_seq(xml@, "<Latest>"@),
            want == latest_ids(xml@),
            want.len() == parts@.len() - 1,
            r@.len() == i - 1,
            forall|j: int| 0 <= j < r@.len() ==> (#[trigger] r@[j])@ == want[j],
        decreases parts.len() - i,
    {
        proof {
            reveal_strlit("</Latest>");
            lemma_split_seq_nonempty(parts@[i as int]@, "</Latest>"@);
        }
        let pieces = split_str(parts[i].as_str(), "</Latest>");
        assert(views(pieces@)[0] == pieces@[0]@);
        assert(views(parts@).skip(1)[i - 1] == parts@[i as int]@);
        r.push(pieces[0].clone());
        i += 1;
    }
    assert(views(r@) =~= want);
    r
}

} // verus!
