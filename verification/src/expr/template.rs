//! Splitting a value into literal text and the `${{ }}` expressions it embeds.
use crate::text::{chars_of, occurs_at, slice_string};
use vstd::prelude::*;

verus! {

/// A piece of a value: literal text, or the source of an embedded expression.
#[derive(Debug, Clone, PartialEq, Eq)]
pub enum TemplatePart {
    Text(String),
    Expression(String),
}

/// A piece as a flag (`true` for an expression) and its text.
pub open spec fn part_view(p: TemplatePart) -> (bool, Seq<char>) {
    match p {
        TemplatePart::Text(t) => (false, t@),
        TemplatePart::Expression(e) => (true, e@),
    }
}

/// The views of a list of pieces.
pub open spec fn parts_view(ps: Seq<TemplatePart>) -> Seq<(bool, Seq<char>)> {
    ps.map_values(|p: TemplatePart| part_view(p))
}

/// The opening mark of an embedded expression.
pub open spec fn open_mark() -> Seq<char> {
    seq!['$', '{', '{']
}

/// The closing mark of an embedded expression.
pub open spec fn close_mark() -> Seq<char> {
    seq!['}', '}']
}

/// The first position at or after `i` where `p` occurs in `s`.
pub open spec fn find_from(s: Seq<char>, p: Seq<char>, i: int) -> Option<int>
    decreases s.len() + 1 - i,
{
    if i < 0 || i + p.len() > s.len() {
        None
    } else if occurs_at(s, p, i) {
        Some(i)
    } else {
        find_from(s, p, i + 1)
    }
}

/// A position found lies at or after the start, with the whole pattern inside the text.
pub proof fn lemma_find_from_bounds(s: Seq<char>, p: Seq<char>, i: int)
    ensures
        find_from(s, p, i) matches Some(k) ==> i <= k && k + p.len() <= s.len() && occurs_at(s, p, k),
    decreases s.len() + 1 - i,
{
    if !(i < 0 || i + p.len() > s.len()) && !occurs_at(s, p, i) {
        lemma_find_from_bounds(s, p, i + 1);
    }
}

/// The pieces of `s` from position `pos` on: the text before the next `${{`, then the
/// expression up to the following `}}`, and so on; an opening mark without a closing one
/// leaves the rest as text.
pub open spec fn template_from(s: Seq<char>, pos: int) -> Seq<(bool, Seq<char>)>
    decreases s.len() - pos,
{
    if pos < 0 || pos > s.len() {
        Seq::empty()
    } else {
        match find_from(s, open_mark(), pos) {
            None => seq![(false, s.subrange(pos, s.len() as int))],
            Some(st) => match find_from(s, close_mark(), st + 3) {
                None => seq![(false, s.subrange(pos, st)), (false, s.subrange(st, s.len() as int))],
                Some(en) => {
                    proof {
                        lemma_find_from_bounds(s, open_mark(), pos);
                        lemma_find_from_bounds(s, close_mark(), st + 3);
                    }
                    seq![(false, s.subrange(pos, st)), (true, s.subrange(st + 3, en))]
                        + template_from(s, en + 2)
                },
            },
        }
    }
}

fn find_from_exec(s: &Vec<char>, p: &Vec<char>, i: usize) -> (r: Option<usize>)
    ensures
        match r {
            Some(k) => find_from(s@, p@, i as int) == Some(k as int),
            None => find_from(s@, p@, i as int) is None,
        },
{
    let mut k = i;
    while k <= s.len() && p.len() <= s.len() - k
        invariant
            i <= k,
            find_from(s@, p@, i as int) == find_from(s@, p@, k as int),
        decreases s.len() + 1 - k,
    {
        let mut j: usize = 0;
        let mut hit = true;
        while j < p.len()
            invariant
                k + p.len() <= s.len(),
                j <= p.len(),
                hit == (forall|t: int| 0 <= t < j ==> s@[k + t] == p@[t]),
            decreases p.len() - j,
        {
            if s[k + j] != p[j] {
                hit = false;
            }
            j += 1;
        }
        if hit {
            assert(s@.subrange(k as int, k + p.len()) =~= p@);
            return Some(k);
        }
        assert(!occurs_at(s@, p@, k as int)) by {
            if occurs_at(s@, p@, k as int) {
                assert forall|t: int| 0 <= t < p.len() implies s@[k + t] == p@[t] by {
                    assert(s@.subrange(k as int, k + p.len())[t] == s@[k + t]);
                }
            }
        }
        k += 1;
    }
    None
}

/// The literal pieces and embedded expressions of a value, in order.
pub fn split_expression_template(value: &str) -> (r: Vec<TemplatePart>)
    ensures
        parts_view(r@) == template_from(value@, 0),
{
    let s = chars_of(value);
    let open: Vec<char> = vec!['$', '{', '{'];
    let close: Vec<char> = vec!['}', '}'];
    assert(open@ =~= open_mark());
    assert(close@ =~= close_mark());
    let mut r: Vec<TemplatePart> = Vec::new();
    let mut pos: usize = 0;
    assert(parts_view(r@) =~= Seq::<(bool, Seq<char>)>::empty());
    loop
        invariant
            s@ == value@,
            open@ == open_mark(),
            close@ == close_mark(),
            pos <= s.len(),
            parts_view(r@) + template_from(s@, pos as int) == template_from(s@, 0),
        decreases s.len() - pos,
    {
        let ghost before = parts_view(r@);
        match find_from_exec(&s, &open, pos) {
            None => {
                r.push(TemplatePart::Text(slice_string(s.as_slice(), pos, s.len())));
                assert(parts_view(r@) =~= before + template_from(s@, pos as int));
                assert(parts_view(r@) + Seq::<(bool, Seq<char>)>::empty() =~= parts_view(r@));
                return r;
            },
            Some(st) => {
                proof { lemma_find_from_bounds(s@, open_mark(), pos as int); }
                match find_from_exec(&s, &close, st + 3) {
                    None => {
                        r.push(TemplatePart::Text(slice_string(s.as_slice(), pos, st)));
                        r.push(TemplatePart::Text(slice_string(s.as_slice(), st, s.len())));
                        assert(parts_view(r@) =~= before + template_from(s@, pos as int));
                        assert(parts_view(r@) + Seq::<(bool, Seq<char>)>::empty() =~= parts_view(r@));
                        return r;
                    },
                    Some(en) => {
                        proof { lemma_find_from_bounds(s@, close_mark(), st + 3); }
                        r.push(TemplatePart::Text(slice_string(s.as_slice(), pos, st)));
                        r.push(TemplatePart::Expression(slice_string(s.as_slice(), st + 3, en)));
                        let ghost mid = seq![(false, s@.subrange(pos as int, st as int)), (true, s@.subrange(st + 3, en as int))];
                        assert(parts_view(r@) =~= before + mid);
                        assert(template_from(s@, pos as int) == mid + template_from(s@, en + 2));
                        assert(before + template_from(s@, pos as int) =~= (before + mid) + template_from(s@, en + 2));
                        pos = en + 2;
                    },
                }
            },
        }
    }
}

} // verus!
