//! Matrix strategies: the combinations a job expands into, and the runner names of its legs.
use crate::strmap::{StrMap, lemma_sorted_unique, lemma_text_map_insert, text_map};
use crate::workflow::{opt_model, scalars_of, WorkflowDocument, WorkflowJob};
use crate::yaml::{entries_view, get, items_view, lemma_entries_view, lemma_items_view, scalar_text, Yaml, YamlValue};
use crate::text::{bounded, cat, decimal, lemma_decimal_reads_back, owned, parse_usize, str_eq, u64_to_string, unsigned_literal,
    usize_to_string, views};
use vstd::prelude::*;

verus! {

/// One leg's matrix values, key to value.
pub type MatrixContext = StrMap<String>;

/// A `strategy.matrix`: its axes (key to values, in key order), `include` entries (`includes`) and `exclude`.
#[derive(Debug, Clone, PartialEq, Eq)]
pub struct MatrixDefinition {
    pub axes: StrMap<Vec<String>>,
    pub includes: Vec<MatrixContext>,
    pub exclude: Vec<MatrixContext>,
}

/// One job after matrix expansion.
#[derive(Debug, Clone, PartialEq, Eq)]
pub struct ExpandedWorkflowJob {
    pub job_id: String,
    pub runner_name: String,
    pub matrix_context: Option<MatrixContext>,
}

/// Every map in the sequence is well formed.
pub open spec fn all_wf(v: Seq<StrMap<String>>) -> bool {
    forall|i: int| 0 <= i < v.len() ==> (#[trigger] v[i]).wf()
}

/// The text maps of a sequence of maps.
pub open spec fn text_maps(v: Seq<StrMap<String>>) -> Seq<Map<Seq<char>, Seq<char>>> {
    v.map_values(|m: StrMap<String>| text_map(m))
}

impl MatrixDefinition {
    pub open spec fn wf(&self) -> bool {
        &&& self.axes.wf()
        &&& all_wf(self.includes@)
        &&& all_wf(self.exclude@)
    }
}

// ---------------------------------------------------------------------------
// The combinations, as maps
// ---------------------------------------------------------------------------

/// Each combination of `prev` extended by each value of axis `k`, combinations outermost.
pub open spec fn extend_all(prev: Seq<Map<Seq<char>, Seq<char>>>, k: Seq<char>, vs: Seq<Seq<char>>) -> Seq<Map<Seq<char>, Seq<char>>>
    decreases prev.len(),
{
    if prev.len() == 0 {
        Seq::empty()
    } else {
        extend_all(prev.drop_last(), k, vs) + vs.map_values(|v: Seq<char>| prev.last().insert(k, v))
    }
}

/// The cartesian product of the first `n` axes, the first axis varying slowest.
pub open spec fn product(axes: StrMap<Vec<String>>, n: int) -> Seq<Map<Seq<char>, Seq<char>>>
    decreases n,
{
    if n <= 0 {
        seq![Map::empty()]
    } else {
        extend_all(product(axes, n - 1), axes.keys()[n - 1], views(axes.values()[n - 1]@))
    }
}

/// Every key of `matcher` is in `combo` with the same value.
pub open spec fn matches_all(combo: Map<Seq<char>, Seq<char>>, matcher: Map<Seq<char>, Seq<char>>) -> bool {
    forall|k: Seq<char>| #[trigger] matcher.contains_key(k) ==> combo.contains_key(k) && combo[k] == matcher[k]
}

/// No key of `inclusion` has a different value in `combo`.
pub open spec fn compatible(combo: Map<Seq<char>, Seq<char>>, inclusion: Map<Seq<char>, Seq<char>>) -> bool {
    forall|k: Seq<char>| #[trigger] inclusion.contains_key(k) && combo.contains_key(k) ==> combo[k] == inclusion[k]
}

/// Some exclude entry matches the combination.
pub open spec fn excluded(combo: Map<Seq<char>, Seq<char>>, excludes: Seq<Map<Seq<char>, Seq<char>>>) -> bool {
    exists|i: int| 0 <= i < excludes.len() && matches_all(combo, #[trigger] excludes[i])
}

/// The combinations that no exclude entry matches, in order.
pub open spec fn without_excluded(s: Seq<Map<Seq<char>, Seq<char>>>, excludes: Seq<Map<Seq<char>, Seq<char>>>) -> Seq<Map<Seq<char>, Seq<char>>>
    decreases s.len(),
{
    if s.len() == 0 {
        s
    } else if excluded(s.last(), excludes) {
        without_excluded(s.drop_last(), excludes)
    } else {
        without_excluded(s.drop_last(), excludes).push(s.last())
    }
}

/// Excluding keeps exactly the combinations that no exclude entry matches: every kept
/// combination is one of the originals and matches no exclude entry, and every original that
/// matches none is kept.
pub proof fn lemma_exclude_keeps_exactly_unmatched(s: Seq<Map<Seq<char>, Seq<char>>>, excludes: Seq<Map<Seq<char>, Seq<char>>>)
    ensures
        forall|j: int| 0 <= j < without_excluded(s, excludes).len()
            ==> !excluded(#[trigger] without_excluded(s, excludes)[j], excludes) && s.contains(without_excluded(s, excludes)[j]),
        forall|i: int| 0 <= i < s.len() && !excluded(#[trigger] s[i], excludes) ==> without_excluded(s, excludes).contains(s[i]),
        without_excluded(s, excludes).len() <= s.len(),
    decreases s.len(),
{
    if s.len() > 0 {
        let pre = s.drop_last();
        lemma_exclude_keeps_exactly_unmatched(pre, excludes);
        let w = without_excluded(pre, excludes);
        let r = without_excluded(s, excludes);
        assert forall|j: int| 0 <= j < r.len() implies !excluded(#[trigger] r[j], excludes) && s.contains(r[j]) by {
            if j < w.len() {
                assert(r[j] == w[j]);
                let k = choose|k: int| 0 <= k < pre.len() && pre[k] == w[j];
                assert(s[k] == pre[k]);
            } else {
                assert(r[j] == s.last());
                assert(s[s.len() - 1] == s.last());
            }
        }
        assert forall|i: int| 0 <= i < s.len() && !excluded(#[trigger] s[i], excludes) implies r.contains(s[i]) by {
            if i < pre.len() {
                assert(pre[i] == s[i]);
                let k = choose|k: int| 0 <= k < w.len() && w[k] == pre[i];
                assert(r[k] == w[k]);
            } else {
                assert(r[r.len() - 1] == s.last());
            }
        }
    }
}

/// One inclusion entry: merged into every compatible combination, or added as a combination of
/// its own when none is compatible.
pub open spec fn apply_include(combos: Seq<Map<Seq<char>, Seq<char>>>, inclusion: Map<Seq<char>, Seq<char>>) -> Seq<Map<Seq<char>, Seq<char>>> {
    let merged = Seq::new(
        combos.len(),
        |j: int| if compatible(combos[j], inclusion) { combos[j].union_prefer_right(inclusion) } else { combos[j] },
    );
    if exists|j: int| 0 <= j < combos.len() && compatible(#[trigger] combos[j], inclusion) {
        merged
    } else {
        merged.push(inclusion)
    }
}

/// An include entry is merged into every combination it is compatible with: each compatible
/// combination gains all of the entry's keys and values and keeps its other keys, each other
/// combination stays as it was, and the entry becomes a combination of its own (appended last)
/// exactly when no combination is compatible with it.
pub proof fn lemma_include_merges_into_every_compatible(combos: Seq<Map<Seq<char>, Seq<char>>>, inc: Map<Seq<char>, Seq<char>>)
    ensures
        forall|i: int| 0 <= i < combos.len() && compatible(combos[i], inc)
            ==> #[trigger] apply_include(combos, inc)[i] == combos[i].union_prefer_right(inc),
        forall|i: int| 0 <= i < combos.len() && compatible(combos[i], inc)
            ==> matches_all(#[trigger] apply_include(combos, inc)[i], inc),
        forall|i: int| 0 <= i < combos.len() && !compatible(combos[i], inc)
            ==> #[trigger] apply_include(combos, inc)[i] == combos[i],
        (exists|j: int| 0 <= j < combos.len() && compatible(#[trigger] combos[j], inc))
            ==> apply_include(combos, inc).len() == combos.len(),
        !(exists|j: int| 0 <= j < combos.len() && compatible(#[trigger] combos[j], inc))
            ==> apply_include(combos, inc).len() == combos.len() + 1 && apply_include(combos, inc).last() == inc,
{
    assert forall|i: int| 0 <= i < combos.len() && compatible(combos[i], inc)
        implies matches_all(#[trigger] apply_include(combos, inc)[i], inc) by {
        let m = combos[i].union_prefer_right(inc);
        assert forall|k: Seq<char>| #[trigger] inc.contains_key(k) implies m.contains_key(k) && m[k] == inc[k] by {}
    }
}

/// The inclusion entries applied in order.
pub open spec fn apply_includes(combos: Seq<Map<Seq<char>, Seq<char>>>, includes: Seq<Map<Seq<char>, Seq<char>>>) -> Seq<Map<Seq<char>, Seq<char>>>
    decreases includes.len(),
{
    if includes.len() == 0 {
        combos
    } else {
        apply_include(apply_includes(combos, includes.drop_last()), includes.last())
    }
}

/// The combinations of a matrix: the product of its axes without the excluded ones, with the
/// includes applied; a single empty combination when nothing is left.
pub open spec fn combinations(m: MatrixDefinition) -> Seq<Map<Seq<char>, Seq<char>>> {
    let r = apply_includes(
        without_excluded(product(m.axes, m.axes.keys().len() as int), text_maps(m.exclude@)),
        text_maps(m.includes@),
    );
    if r.len() == 0 {
        seq![Map::empty()]
    } else {
        r
    }
}

/// The first value of each of the first `n` axes that has one.
pub open spec fn first_values(axes: StrMap<Vec<String>>, n: int) -> Map<Seq<char>, Seq<char>>
    decreases n,
{
    if n <= 0 {
        Map::empty()
    } else if axes.values()[n - 1]@.len() > 0 {
        first_values(axes, n - 1).insert(axes.keys()[n - 1], axes.values()[n - 1]@[0]@)
    } else {
        first_values(axes, n - 1)
    }
}

/// A combination with its strategy metadata: the number of legs and its own index.
pub open spec fn with_metadata(c: Map<Seq<char>, Seq<char>>, total: nat, index: nat) -> Map<Seq<char>, Seq<char>> {
    c.insert("__job_total"@, decimal(total)).insert("__job_index"@, decimal(index))
}

/// The single leg that `--no-matrix` runs.
pub open spec fn collapsed(m: MatrixDefinition) -> Map<Seq<char>, Seq<char>> {
    with_metadata(first_values(m.axes, m.axes.keys().len() as int), 1, 0)
}

/// The legs of a matrix job, each with its metadata.
pub open spec fn contexts(m: MatrixDefinition, no_matrix: bool) -> Seq<Map<Seq<char>, Seq<char>>> {
    if no_matrix {
        seq![collapsed(m)]
    } else {
        let c = combinations(m);
        Seq::new(c.len(), |i: int| with_metadata(c[i], c.len(), i as nat))
    }
}

/// The number of combinations of the first `n` axes: the product of their numbers of values.
pub open spec fn axis_product(axes: StrMap<Vec<String>>, n: int) -> nat
    decreases n,
{
    if n <= 0 {
        1
    } else {
        axis_product(axes, n - 1) * axes.values()[n - 1]@.len()
    }
}

proof fn lemma_extend_all_len(prev: Seq<Map<Seq<char>, Seq<char>>>, k: Seq<char>, vs: Seq<Seq<char>>)
    ensures
        extend_all(prev, k, vs).len() == prev.len() * vs.len(),
    decreases prev.len(),
{
    if prev.len() > 0 {
        lemma_extend_all_len(prev.drop_last(), k, vs);
        let a = prev.len() as int;
        let b = vs.len() as int;
        assert((a - 1) * b + b == a * b) by (nonlinear_arith);
    }
}

proof fn lemma_product_len(axes: StrMap<Vec<String>>, n: int)
    ensures
        product(axes, n).len() == axis_product(axes, n),
    decreases n,
{
    if n > 0 {
        lemma_product_len(axes, n - 1);
        lemma_extend_all_len(product(axes, n - 1), axes.keys()[n - 1], views(axes.values()[n - 1]@));
    }
}

proof fn lemma_nothing_excluded(s: Seq<Map<Seq<char>, Seq<char>>>)
    ensures
        without_excluded(s, Seq::empty()) == s,
    decreases s.len(),
{
    if s.len() > 0 {
        lemma_nothing_excluded(s.drop_last());
        assert(!excluded(s.last(), Seq::empty()));
        assert(s.drop_last().push(s.last()) =~= s);
    }
}

/// A matrix without `include` or `exclude` entries has one combination for each choice of one
/// value per axis: as many as the product of the axes' numbers of values, when that is not
/// zero (and a single empty combination otherwise).
pub proof fn lemma_plain_matrix_size(m: MatrixDefinition)
    requires
        m.includes@.len() == 0,
        m.exclude@.len() == 0,
    ensures
        combinations(m).len() == if axis_product(m.axes, m.axes.keys().len() as int) == 0 {
            1
        } else {
            axis_product(m.axes, m.axes.keys().len() as int)
        },
{
    let n = m.axes.keys().len() as int;
    lemma_product_len(m.axes, n);
    assert(text_maps(m.exclude@) =~= Seq::<Map<Seq<char>, Seq<char>>>::empty());
    assert(text_maps(m.includes@) =~= Seq::<Map<Seq<char>, Seq<char>>>::empty());
    lemma_nothing_excluded(product(m.axes, n));
}

/// Each leg of an expanded matrix is its combination with the number of legs and its own
/// index added as strategy metadata; `--no-matrix` runs the single collapsed leg.
pub proof fn lemma_contexts_carry_metadata(m: MatrixDefinition, i: int)
    requires
        0 <= i < combinations(m).len(),
    ensures
        contexts(m, false).len() == combinations(m).len(),
        contexts(m, false)[i] == combinations(m)[i].insert("__job_total"@, decimal(combinations(m).len()))
            .insert("__job_index"@, decimal(i as nat)),
        contexts(m, true) == seq![collapsed(m)],
{
}

// ---------------------------------------------------------------------------
// Computing them
// ---------------------------------------------------------------------------

fn single_entry_map(k: &str, v: &str) -> (m: StrMap<String>)
    ensures
        m.wf(),
        text_map(m) == Map::<Seq<char>, Seq<char>>::empty().insert(k@, v@),
{
    let mut m: StrMap<String> = StrMap::new();
    let ghost before = m;
    assert(text_map(before) =~= Map::<Seq<char>, Seq<char>>::empty());
    m.insert(owned(k), owned(v));
    proof {
        lemma_text_map_insert(before, m, k@, v@);
    }
    m
}

/// Inserts into a map of strings, with the text-map view of the effect.
fn put(m: &mut StrMap<String>, k: &str, v: &str)
    requires
        old(m).wf(),
    ensures
        final(m).wf(),
        text_map(*final(m)) == text_map(*old(m)).insert(k@, v@),
{
    let ghost before = *m;
    m.insert(owned(k), owned(v));
    proof {
        lemma_text_map_insert(before, *m, k@, v@);
    }
}

fn cartesian_product(axes: &StrMap<Vec<String>>) -> (r: Vec<MatrixContext>)
    requires
        axes.wf(),
    ensures
        all_wf(r@),
        text_maps(r@) == product(*axes, axes.keys().len() as int),
{
    let mut combos: Vec<MatrixContext> = Vec::new();
    let empty: MatrixContext = StrMap::new();
    assert(text_map(empty) =~= Map::<Seq<char>, Seq<char>>::empty());
    combos.push(empty);
    assert(text_maps(combos@) =~= product(*axes, 0));
    let n = axes.len();
    let mut a: usize = 0;
    while a < n
        invariant
            axes.wf(),
            n == axes.keys().len(),
            a <= n,
            all_wf(combos@),
            text_maps(combos@) == product(*axes, a as int),
        decreases n - a,
    {
        let key = axes.key_at(a);
        let values = axes.value_at(a);
        let ghost prev = product(*axes, a as int);
        let ghost vs = views(values@);
        let mut next: Vec<MatrixContext> = Vec::new();
        let mut j: usize = 0;
        assert(prev.take(0) =~= Seq::<Map<Seq<char>, Seq<char>>>::empty());
        while j < combos.len()
            invariant
                j <= combos.len(),
                all_wf(combos@),
                all_wf(next@),
                prev == text_maps(combos@),
                vs == views(values@),
                text_maps(next@) == extend_all(prev.take(j as int), key@, vs),
            decreases combos.len() - j,
        {
            let mut t: usize = 0;
            let ghost base = text_maps(next@);
            while t < values.len()
                invariant
                    j < combos.len(),
                    t <= values.len(),
                    all_wf(combos@),
                    all_wf(next@),
                    prev == text_maps(combos@),
                    vs == views(values@),
                    text_maps(next@) == base + vs.take(t as int).map_values(|v: Seq<char>| prev[j as int].insert(key@, v)),
                decreases values.len() - t,
            {
                let mut c = combos[j].duplicate();
                let ghost before = c;
                c.insert(key.clone(), values[t].clone());
                proof {
                    lemma_text_map_insert(before, c, key@, values@[t as int]@);
                    assert(text_map(before) == prev[j as int]);
                }
                let ghost old_next = text_maps(next@);
                next.push(c);
                proof {
                    assert(text_maps(next@) =~= old_next.push(text_map(c)));
                    assert(vs[t as int] == values@[t as int]@);
                    assert(vs.take(t + 1).map_values(|v: Seq<char>| prev[j as int].insert(key@, v)) =~= vs.take(t as int).map_values(
                        |v: Seq<char>| prev[j as int].insert(key@, v),
                    ).push(prev[j as int].insert(key@, vs[t as int])));
                }
                t += 1;
                proof {
                    assert(text_maps(next@) =~= base + vs.take(t as int).map_values(|v: Seq<char>| prev[j as int].insert(key@, v)));
                }
            }
            proof {
                assert(vs.take(values.len() as int) =~= vs);
                assert(prev.take(j + 1).drop_last() =~= prev.take(j as int));
                assert(prev.take(j + 1).last() == prev[j as int]);
            }
            j += 1;
        }
        assert(prev.take(combos.len() as int) =~= prev);
        combos = next;
        a += 1;
    }
    combos
}

/// `combo` has every key of `matcher` with the same value.
fn matrix_object_matches(combo: &MatrixContext, matcher: &MatrixContext) -> (r: bool)
    requires
        combo.wf(),
        matcher.wf(),
    ensures
        r == matches_all(text_map(*combo), text_map(*matcher)),
{
    let mut i: usize = 0;
    while i < matcher.len()
        invariant
            combo.wf(),
            matcher.wf(),
            i <= matcher.keys().len(),
            forall|j: int| 0 <= j < i ==> (#[trigger] combo.lookup(matcher.keys()[j]) matches Some(v) && v@ == matcher.values()[j]@),
        decreases matcher.keys().len() - i,
    {
        let key = matcher.key_at(i);
        let value = matcher.value_at(i);
        match combo.get(key.as_str()) {
            Some(existing) => {
                if !str_eq(existing.as_str(), value.as_str()) {
                    proof {
                        matcher.lemma_index_of(i as int);
                        assert(text_map(*matcher).contains_key(key@));
                        assert(text_map(*matcher)[key@] == value@);
                        assert(text_map(*combo)[key@] == existing@);
                    }
                    return false;
                }
            },
            None => {
                proof {
                    matcher.lemma_index_of(i as int);
                    assert(text_map(*matcher).contains_key(key@));
                    assert(!text_map(*combo).contains_key(key@));
                }
                return false;
            },
        }
        i += 1;
    }
    proof {
        assert forall|k: Seq<char>| #[trigger] text_map(*matcher).contains_key(k) implies text_map(*combo).contains_key(k)
            && text_map(*combo)[k] == text_map(*matcher)[k] by {
            let j = matcher.index_of(k);
            matcher.lemma_index_of(j);
            assert((combo.lookup(matcher.keys()[j]) matches Some(v) && v@ == matcher.values()[j]@));
        }
    }
    true
}

/// No key of `inclusion` has a different value in `combo`.
fn include_is_compatible(combo: &MatrixContext, inclusion: &MatrixContext) -> (r: bool)
    requires
        combo.wf(),
        inclusion.wf(),
    ensures
        r == compatible(text_map(*combo), text_map(*inclusion)),
{
    let mut i: usize = 0;
    while i < inclusion.len()
        invariant
            combo.wf(),
            inclusion.wf(),
            i <= inclusion.keys().len(),
            forall|j: int| 0 <= j < i ==> (#[trigger] combo.lookup(inclusion.keys()[j]) matches Some(v) ==> v@ == inclusion.values()[j]@),
        decreases inclusion.keys().len() - i,
    {
        let key = inclusion.key_at(i);
        let value = inclusion.value_at(i);
        match combo.get(key.as_str()) {
            Some(existing) => {
                if !str_eq(existing.as_str(), value.as_str()) {
                    proof {
                        inclusion.lemma_index_of(i as int);
                        assert(text_map(*inclusion).contains_key(key@));
                        assert(text_map(*inclusion)[key@] == value@);
                        assert(text_map(*combo).contains_key(key@));
                        assert(text_map(*combo)[key@] == existing@);
                    }
                    return false;
                }
            },
            None => {},
        }
        i += 1;
    }
    proof {
        assert forall|k: Seq<char>| #[trigger] text_map(*inclusion).contains_key(k) && text_map(*combo).contains_key(k)
            implies text_map(*combo)[k] == text_map(*inclusion)[k] by {
            let j = inclusion.index_of(k);
            inclusion.lemma_index_of(j);
            assert(combo.lookup(inclusion.keys()[j]) matches Some(v) ==> v@ == inclusion.values()[j]@);
        }
    }
    true
}

fn apply_one_include(combos: &Vec<MatrixContext>, inclusion: &MatrixContext) -> (r: Vec<MatrixContext>)
    requires
        all_wf(combos@),
        inclusion.wf(),
    ensures
        all_wf(r@),
        text_maps(r@) == apply_include(text_maps(combos@), text_map(*inclusion)),
{
    let ghost cs = text_maps(combos@);
    let ghost inc = text_map(*inclusion);
    let mut next: Vec<MatrixContext> = Vec::new();
    let mut matched = false;
    let mut j: usize = 0;
    while j < combos.len()
        invariant
            j <= combos.len(),
            all_wf(combos@),
            inclusion.wf(),
            all_wf(next@),
            cs == text_maps(combos@),
            inc == text_map(*inclusion),
            next@.len() == j,
            forall|i: int| 0 <= i < j ==> #[trigger] text_maps(next@)[i] == (if compatible(cs[i], inc) {
                cs[i].union_prefer_right(inc)
            } else {
                cs[i]
            }),
            matched <==> exists|i: int| 0 <= i < j && compatible(#[trigger] cs[i], inc),
        decreases combos.len() - j,
    {
        let mut c = combos[j].duplicate();
        assert(cs[j as int] == text_map(combos@[j as int]));
        let fits = include_is_compatible(&combos[j], inclusion);
        if fits {
            c.extend_from(inclusion);
            matched = true;
        }
        let ghost old_next = text_maps(next@);
        next.push(c);
        proof {
            assert(text_maps(next@) =~= old_next.push(text_map(c)));
            if fits {
                assert(compatible(cs[j as int], inc));
            }
        }
        j += 1;
    }
    let ghost merged = Seq::new(
        cs.len(),
        |j: int| if compatible(cs[j], inc) { cs[j].union_prefer_right(inc) } else { cs[j] },
    );
    assert(text_maps(next@) =~= merged);
    if !matched {
        let extra = inclusion.duplicate();
        next.push(extra);
        assert(text_maps(next@) =~= merged.push(inc));
    }
    next
}

/// The combinations that a matrix expands into.
pub fn expand_matrix_combinations(matrix: &MatrixDefinition) -> (r: Vec<MatrixContext>)
    requires
        matrix.wf(),
    ensures
        all_wf(r@),
        text_maps(r@) == combinations(*matrix),
{
    let product_combos = cartesian_product(&matrix.axes);
    let ghost all = text_maps(product_combos@);
    let ghost exs = text_maps(matrix.exclude@);
    let mut kept: Vec<MatrixContext> = Vec::new();
    let mut i: usize = 0;
    assert(all.take(0) =~= Seq::<Map<Seq<char>, Seq<char>>>::empty());
    while i < product_combos.len()
        invariant
            matrix.wf(),
            i <= product_combos.len(),
            all_wf(product_combos@),
            all_wf(kept@),
            all == text_maps(product_combos@),
            exs == text_maps(matrix.exclude@),
            text_maps(kept@) == without_excluded(all.take(i as int), exs),
        decreases product_combos.len() - i,
    {
        let mut hit = false;
        let mut e: usize = 0;
        while e < matrix.exclude.len()
            invariant
                matrix.wf(),
                i < product_combos.len(),
                all_wf(product_combos@),
                e <= matrix.exclude.len(),
                exs == text_maps(matrix.exclude@),
                all == text_maps(product_combos@),
                hit <==> exists|x: int| 0 <= x < e && matches_all(all[i as int], #[trigger] exs[x]),
            decreases matrix.exclude.len() - e,
        {
            assert(exs[e as int] == text_map(matrix.exclude@[e as int]));
            assert(all[i as int] == text_map(product_combos@[i as int]));
            if matrix_object_matches(&product_combos[i], &matrix.exclude[e]) {
                hit = true;
            }
            e += 1;
        }
        proof {
            assert(all.take(i + 1).drop_last() =~= all.take(i as int));
            assert(all.take(i + 1).last() == all[i as int]);
        }
        if !hit {
            let c = product_combos[i].duplicate();
            kept.push(c);
            proof {
                assert(text_maps(kept@) =~= without_excluded(all.take(i as int), exs).push(all[i as int]));
            }
        }
        i += 1;
    }
    assert(all.take(product_combos.len() as int) =~= all);
    let ghost incs = text_maps(matrix.includes@);
    let mut combos = kept;
    let mut k: usize = 0;
    let ghost start = text_maps(combos@);
    assert(incs.take(0) =~= Seq::<Map<Seq<char>, Seq<char>>>::empty());
    while k < matrix.includes.len()
        invariant
            matrix.wf(),
            k <= matrix.includes.len(),
            all_wf(combos@),
            incs == text_maps(matrix.includes@),
            text_maps(combos@) == apply_includes(start, incs.take(k as int)),
        decreases matrix.includes.len() - k,
    {
        combos = apply_one_include(&combos, &matrix.includes[k]);
        proof {
            assert(incs.take(k + 1).drop_last() =~= incs.take(k as int));
            assert(incs.take(k + 1).last() == incs[k as int]);
        }
        k += 1;
    }
    assert(incs.take(matrix.includes.len() as int) =~= incs);
    if combos.len() == 0 {
        let mut v: Vec<MatrixContext> = Vec::new();
        let empty: MatrixContext = StrMap::new();
        assert(text_map(empty) =~= Map::<Seq<char>, Seq<char>>::empty());
        v.push(empty);
        assert(text_maps(v@) =~= seq![Map::<Seq<char>, Seq<char>>::empty()]);
        v
    } else {
        combos
    }
}

/// The single leg that runs when matrix expansion is turned off: the first value of each axis.
pub fn collapse_matrix_to_single(matrix: &MatrixDefinition) -> (r: Vec<MatrixContext>)
    requires
        matrix.wf(),
    ensures
        all_wf(r@),
        text_maps(r@) == seq![collapsed(*matrix)],
{
    let mut combo: MatrixContext = StrMap::new();
    assert(text_map(combo) =~= first_values(matrix.axes, 0));
    let n = matrix.axes.len();
    let mut a: usize = 0;
    while a < n
        invariant
            matrix.wf(),
            n == matrix.axes.keys().len(),
            a <= n,
            combo.wf(),
            text_map(combo) == first_values(matrix.axes, a as int),
        decreases n - a,
    {
        let values = matrix.axes.value_at(a);
        if values.len() > 0 {
            let key = matrix.axes.key_at(a);
            let ghost before = combo;
            combo.insert(key.clone(), values[0].clone());
            proof {
                lemma_text_map_insert(before, combo, key@, values@[0]@);
            }
        }
        a += 1;
    }
    proof {
        reveal_strlit("1");
        reveal_strlit("0");
        assert(decimal(1) =~= "1"@);
        assert(decimal(0) =~= "0"@);
    }
    put(&mut combo, "__job_total", "1");
    put(&mut combo, "__job_index", "0");
    let mut v: Vec<MatrixContext> = Vec::new();
    v.push(combo);
    assert(text_maps(v@) =~= seq![collapsed(*matrix)]);
    v
}

/// The legs of a matrix job, each carrying `__job_total` and its own `__job_index`.
pub fn matrix_contexts(matrix: &MatrixDefinition, no_matrix: bool) -> (r: Vec<MatrixContext>)
    requires
        matrix.wf(),
    ensures
        all_wf(r@),
        text_maps(r@) == contexts(*matrix, no_matrix),
{
    if no_matrix {
        return collapse_matrix_to_single(matrix);
    }
    let combos = expand_matrix_combinations(matrix);
    let ghost cs = text_maps(combos@);
    let total = usize_to_string(combos.len());
    let mut out: Vec<MatrixContext> = Vec::new();
    let mut i: usize = 0;
    while i < combos.len()
        invariant
            i <= combos.len(),
            all_wf(combos@),
            all_wf(out@),
            cs == text_maps(combos@),
            total@ == decimal(combos.len() as nat),
            out@.len() == i,
            forall|j: int| 0 <= j < i ==> #[trigger] text_maps(out@)[j] == with_metadata(cs[j], cs.len(), j as nat),
        decreases combos.len() - i,
    {
        let mut c = combos[i].duplicate();
        assert(cs[i as int] == text_map(combos@[i as int]));
        put(&mut c, "__job_total", total.as_str());
        let index = usize_to_string(i);
        put(&mut c, "__job_index", index.as_str());
        let ghost old_out = text_maps(out@);
        out.push(c);
        assert(text_maps(out@) =~= old_out.push(text_map(c)));
        i += 1;
    }
    assert(text_maps(out@) =~= contexts(*matrix, no_matrix));
    out
}

/// The leg index recorded in a context, or zero.
pub open spec fn leg_index(ctx: Map<Seq<char>, Seq<char>>) -> nat {
    if ctx.contains_key("__job_index"@) {
        match bounded(unsigned_literal(ctx["__job_index"@]), usize::MAX as nat) {
            Some(n) => n,
            None => 0,
        }
    } else {
        0
    }
}

/// The runner name of a job: `local-ci-<run>-j<job number>`, and for a matrix leg
/// `-m<leg number>`, numbers counting from one.
pub open spec fn runner_name_spec(base_run_num: nat, job_index: nat, ctx: Option<Map<Seq<char>, Seq<char>>>) -> Seq<char> {
    let name = "local-ci-"@ + decimal(base_run_num) + "-j"@ + decimal(job_index + 1);
    match ctx {
        Some(c) => name + "-m"@ + decimal(leg_index(c) + 1),
        None => name,
    }
}

/// The runner name of a job or matrix leg.
pub fn runner_name(base_run_num: u32, job_index: usize, matrix_context: Option<&MatrixContext>) -> (r: String)
    requires
        job_index < usize::MAX,
        matrix_context matches Some(c) ==> c.wf() && leg_index(text_map(*c)) < usize::MAX,
    ensures
        r@ == runner_name_spec(
            base_run_num as nat,
            job_index as nat,
            match matrix_context {
                Some(c) => Some(text_map(*c)),
                None => None,
            },
        ),
{
    let run = u64_to_string(base_run_num as u64);
    let job = usize_to_string(job_index + 1);
    let mut name = cat("local-ci-", run.as_str());
    name.append("-j");
    name.append(job.as_str());
    match matrix_context {
        Some(context) => {
            let matrix_index: usize = match context.get("__job_index") {
                Some(value) => match parse_usize(value.as_str()) {
                    Some(n) => n,
                    None => 0,
                },
                None => 0,
            };
            let leg = usize_to_string(matrix_index + 1);
            name.append("-m");
            name.append(leg.as_str());
            name
        },
        None => name,
    }
}


// ---------------------------------------------------------------------------
// Reading a job's matrix
// ---------------------------------------------------------------------------

/// The scalar keys of mapping entries with their scalar values; entries whose key or value is
/// not a scalar are left out, and a later key replaces an earlier one.
pub open spec fn scalar_pairs(entries: Seq<(Yaml, Yaml)>) -> Map<Seq<char>, Seq<char>>
    decreases entries.len(),
{
    if entries.len() == 0 {
        Map::empty()
    } else {
        let prev = scalar_pairs(entries.drop_last());
        match (scalar_text(entries.last().0), scalar_text(entries.last().1)) {
            (Some(k), Some(v)) => prev.insert(k, v),
            _ => prev,
        }
    }
}

/// The objects of a list: one per mapping member, in order.
pub open spec fn objects_of(items: Seq<Yaml>) -> Seq<Map<Seq<char>, Seq<char>>>
    decreases items.len(),
{
    if items.len() == 0 {
        Seq::empty()
    } else {
        let prev = objects_of(items.drop_last());
        match items.last() {
            Yaml::Mapping(entries, _) => prev.push(scalar_pairs(entries)),
            _ => prev,
        }
    }
}

/// The objects of an `include:` or `exclude:` node; none unless it is a sequence.
pub open spec fn objects_node(v: Yaml) -> Seq<Map<Seq<char>, Seq<char>>> {
    match v {
        Yaml::Sequence(items, _) => objects_of(items),
        _ => Seq::empty(),
    }
}

/// The objects under the last entry whose scalar key is `name`; none without such an entry.
pub open spec fn keyed_objects(entries: Seq<(Yaml, Yaml)>, name: Seq<char>) -> Seq<Map<Seq<char>, Seq<char>>>
    decreases entries.len(),
{
    if entries.len() == 0 {
        Seq::empty()
    } else if scalar_text(entries.last().0) == Some(name) {
        objects_node(entries.last().1)
    } else {
        keyed_objects(entries.drop_last(), name)
    }
}

/// The axes of matrix entries: each scalar key other than `include` and `exclude` whose value
/// is a sequence, with the scalar members of that sequence.
pub open spec fn axes_spec(entries: Seq<(Yaml, Yaml)>) -> Map<Seq<char>, Seq<Seq<char>>>
    decreases entries.len(),
{
    if entries.len() == 0 {
        Map::empty()
    } else {
        let prev = axes_spec(entries.drop_last());
        match scalar_text(entries.last().0) {
            Some(k) => if k == "include"@ || k == "exclude"@ {
                prev
            } else {
                match entries.last().1 {
                    Yaml::Sequence(items, _) => prev.insert(k, scalars_of(items)),
                    _ => prev,
                }
            },
            None => prev,
        }
    }
}

/// The map holds exactly the axes given, each with the same values.
pub open spec fn axes_match(m: StrMap<Vec<String>>, s: Map<Seq<char>, Seq<Seq<char>>>) -> bool {
    forall|k: Seq<char>| if s.contains_key(k) {
        #[trigger] m.lookup(k) matches Some(v) && views(v@) == s[k]
    } else {
        m.lookup(k) is None
    }
}

/// The `strategy.matrix` entries of a job, when both are mappings.
pub open spec fn matrix_entries(job: WorkflowJob) -> Option<Seq<(Yaml, Yaml)>> {
    match opt_model(job.strategy) {
        Some(st) => match get(st, "matrix"@) {
            Some(Yaml::Mapping(entries, _)) => Some(entries),
            _ => None,
        },
        None => None,
    }
}

/// Matrix entries define something: an axis, an include or an exclude.
pub open spec fn has_matrix(entries: Seq<(Yaml, Yaml)>) -> bool {
    !(axes_spec(entries) == Map::<Seq<char>, Seq<Seq<char>>>::empty()
        && keyed_objects(entries, "include"@).len() == 0 && keyed_objects(entries, "exclude"@).len() == 0)
}

/// The matrix definition read from matrix entries.
pub open spec fn matrix_def_of(d: MatrixDefinition, entries: Seq<(Yaml, Yaml)>) -> bool {
    &&& d.wf()
    &&& axes_match(d.axes, axes_spec(entries))
    &&& text_maps(d.includes@) == keyed_objects(entries, "include"@)
    &&& text_maps(d.exclude@) == keyed_objects(entries, "exclude"@)
}

/// The scalar key and value pairs of mapping entries.
pub fn scalar_pairs_of(entries: &Vec<(YamlValue, YamlValue)>) -> (r: MatrixContext)
    ensures
        r.wf(),
        text_map(r) == scalar_pairs(entries_view(entries@)),
{
    proof { lemma_entries_view(entries@); }
    let ghost model = entries_view(entries@);
    let mut r: MatrixContext = StrMap::new();
    assert(text_map(r) =~= Map::empty());
    let mut i: usize = 0;
    while i < entries.len()
        invariant
            i <= entries.len(),
            model == entries_view(entries@),
            model.len() == entries.len(),
            forall|j: int| 0 <= j < entries.len() ==> #[trigger] model[j] == (entries[j].0@, entries[j].1@),
            r.wf(),
            text_map(r) == scalar_pairs(model.take(i as int)),
        decreases entries.len() - i,
    {
        assert(model.take(i + 1).drop_last() =~= model.take(i as int));
        assert(model.take(i + 1).last() == model[i as int]);
        match (entries[i].0.scalar_string(), entries[i].1.scalar_string()) {
            (Some(k), Some(v)) => {
                let ghost before = r;
                let ghost kv = k@;
                let ghost vv = v@;
                r.insert(k, v);
                proof { lemma_text_map_insert(before, r, kv, vv); }
            },
            _ => {},
        }
        i += 1;
    }
    assert(model.take(entries.len() as int) =~= model);
    r
}

fn parse_matrix_objects(v: &YamlValue) -> (r: Vec<MatrixContext>)
    ensures
        all_wf(r@),
        text_maps(r@) == objects_node(v@),
{
    let mut r: Vec<MatrixContext> = Vec::new();
    let items = match v {
        YamlValue::Sequence(items, _) => items,
        _ => {
            assert(text_maps(r@) =~= objects_node(v@));
            return r;
        },
    };
    proof { lemma_items_view(items@); }
    let ghost model = items_view(items@);
    let mut i: usize = 0;
    assert(text_maps(r@) =~= Seq::<Map<Seq<char>, Seq<char>>>::empty());
    while i < items.len()
        invariant
            i <= items.len(),
            model == items_view(items@),
            model.len() == items.len(),
            forall|j: int| 0 <= j < items.len() ==> #[trigger] model[j] == items[j]@,
            all_wf(r@),
            text_maps(r@) == objects_of(model.take(i as int)),
        decreases items.len() - i,
    {
        assert(model.take(i + 1).drop_last() =~= model.take(i as int));
        assert(model.take(i + 1).last() == model[i as int]);
        if let YamlValue::Mapping(entries, _) = &items[i] {
            let object = scalar_pairs_of(entries);
            let ghost before = text_maps(r@);
            r.push(object);
            assert(text_maps(r@) =~= before.push(text_map(object)));
        }
        i += 1;
    }
    assert(model.take(items.len() as int) =~= model);
    r
}

proof fn lemma_axes_empty(m: StrMap<Vec<String>>, s: Map<Seq<char>, Seq<Seq<char>>>)
    requires
        m.wf(),
        axes_match(m, s),
    ensures
        (m.keys().len() == 0) == (s == Map::<Seq<char>, Seq<Seq<char>>>::empty()),
{
    if m.keys().len() == 0 {
        assert forall|k: Seq<char>| !s.contains_key(k) by {
            if s.contains_key(k) {
                assert(m.lookup(k) is Some);
            }
        }
        assert(s =~= Map::<Seq<char>, Seq<Seq<char>>>::empty());
    } else {
        m.lemma_index_of(0);
        let k = m.keys()[0];
        assert(m.lookup(k) is Some);
        if !s.contains_key(k) {
            assert(m.lookup(k) is None);
        }
        assert(s.contains_key(k));
    }
}

/// The matrix of a job's `strategy`, when it defines an axis, an include or an exclude.
pub fn parse_matrix_def(job: &WorkflowJob) -> (r: Option<MatrixDefinition>)
    ensures
        match matrix_entries(*job) {
            Some(e) => if has_matrix(e) { r matches Some(d) && matrix_def_of(d, e) } else { r is None },
            None => r is None,
        },
{
    let strategy = match &job.strategy {
        Some(s) => s,
        None => return None,
    };
    let entries = match strategy.get("matrix") {
        Some(YamlValue::Mapping(entries, _)) => entries,
        _ => return None,
    };
    proof { lemma_entries_view(entries@); }
    let ghost model = entries_view(entries@);
    let mut axes: StrMap<Vec<String>> = StrMap::new();
    let mut includes: Vec<MatrixContext> = Vec::new();
    let mut exclude: Vec<MatrixContext> = Vec::new();
    assert(text_maps(includes@) =~= Seq::<Map<Seq<char>, Seq<char>>>::empty());
    assert(text_maps(exclude@) =~= Seq::<Map<Seq<char>, Seq<char>>>::empty());
    let mut i: usize = 0;
    while i < entries.len()
        invariant
            i <= entries.len(),
            model == entries_view(entries@),
            model.len() == entries.len(),
            forall|j: int| 0 <= j < entries.len() ==> #[trigger] model[j] == (entries[j].0@, entries[j].1@),
            axes.wf(),
            all_wf(includes@),
            all_wf(exclude@),
            axes_match(axes, axes_spec(model.take(i as int))),
            text_maps(includes@) == keyed_objects(model.take(i as int), "include"@),
            text_maps(exclude@) == keyed_objects(model.take(i as int), "exclude"@),
        decreases entries.len() - i,
    {
        let ghost pre = model.take(i as int);
        let ghost cur = model.take(i + 1);
        assert(cur.drop_last() =~= pre);
        assert(cur.last() == model[i as int]);
        proof {
            reveal_strlit("include");
            reveal_strlit("exclude");
        }
        match entries[i].0.scalar_string() {
            Some(key) => {
                if str_eq(key.as_str(), "include") {
                    includes = parse_matrix_objects(&entries[i].1);
                    assert("include"@[0] != "exclude"@[0]);
                    assert(keyed_objects(cur, "exclude"@) == keyed_objects(pre, "exclude"@));
                    assert(axes_spec(cur) == axes_spec(pre));
                } else if str_eq(key.as_str(), "exclude") {
                    exclude = parse_matrix_objects(&entries[i].1);
                    assert("include"@[0] != "exclude"@[0]);
                    assert(keyed_objects(cur, "include"@) == keyed_objects(pre, "include"@));
                    assert(axes_spec(cur) == axes_spec(pre));
                } else {
                    if let YamlValue::Sequence(items, _) = &entries[i].1 {
                        let values = crate::workflow::parse_string_list(&entries[i].1);
                        assert(crate::yaml::scalar_text(entries[i as int].1@) is None);
                        let ghost before = axes;
                        let ghost kv = key@;
                        axes.insert(key, values);
                        assert(axes_match(axes, axes_spec(cur))) by {
                            assert forall|k: Seq<char>| if axes_spec(cur).contains_key(k) {
                                #[trigger] axes.lookup(k) matches Some(v) && views(v@) == axes_spec(cur)[k]
                            } else {
                                axes.lookup(k) is None
                            } by {
                                if k != kv {
                                    assert(axes.lookup(k) == before.lookup(k));
                                }
                            }
                        }
                    }
                }
            },
            None => {},
        }
        i += 1;
    }
    assert(model.take(entries.len() as int) =~= model);
    proof { lemma_axes_empty(axes, axes_spec(model)); }
    if axes.is_empty() && includes.len() == 0 && exclude.len() == 0 {
        None
    } else {
        Some(MatrixDefinition { axes, includes, exclude })
    }
}


proof fn lemma_product_same(a1: StrMap<Vec<String>>, a2: StrMap<Vec<String>>, n: int)
    requires
        0 <= n <= a1.keys().len(),
        a1.keys() == a2.keys(),
        a1.values().len() == a2.values().len(),
        forall|i: int| 0 <= i < a1.values().len() ==> views(#[trigger] a1.values()[i]@) == views(a2.values()[i]@),
    ensures
        product(a1, n) == product(a2, n),
        first_values(a1, n) == first_values(a2, n),
    decreases n,
{
    if n > 0 {
        lemma_product_same(a1, a2, n - 1);
        let v1 = a1.values()[n - 1]@;
        let v2 = a2.values()[n - 1]@;
        assert(views(v1) == views(v2));
        assert(views(v1).len() == v1.len());
        assert(views(v2).len() == v2.len());
        if v1.len() > 0 {
            assert(views(v1)[0] == v1[0]@);
            assert(views(v2)[0] == v2[0]@);
        }
    }
}

/// Two readings of the same matrix entries give the same legs.
proof fn lemma_matrix_def_unique(d1: MatrixDefinition, d2: MatrixDefinition, e: Seq<(Yaml, Yaml)>, no_matrix: bool)
    requires
        matrix_def_of(d1, e),
        matrix_def_of(d2, e),
    ensures
        contexts(d1, no_matrix) == contexts(d2, no_matrix),
{
    let s = axes_spec(e);
    let k1 = d1.axes.keys();
    let k2 = d2.axes.keys();
    assert forall|k: Seq<char>| k1.to_set().contains(k) <==> k2.to_set().contains(k) by {
        assert(d1.axes.lookup(k) is Some <==> s.contains_key(k));
        assert(d2.axes.lookup(k) is Some <==> s.contains_key(k));
    }
    assert(k1.to_set() =~= k2.to_set());
    lemma_sorted_unique(k1, k2);
    assert forall|i: int| 0 <= i < d1.axes.values().len() implies views(#[trigger] d1.axes.values()[i]@) == views(d2.axes.values()[i]@) by {
        d1.axes.lemma_index_of(i);
        d2.axes.lemma_index_of(i);
        let k = k1[i];
        assert(d1.axes.lookup(k) is Some);
        assert(s.contains_key(k));
    }
    lemma_product_same(d1.axes, d2.axes, k1.len() as int);
    assert(combinations(d1) == combinations(d2));
}

/// The legs of a job: one per matrix context when its strategy defines a matrix, else a single
/// leg without one.
pub open spec fn job_legs(job: WorkflowJob, no_matrix: bool) -> Seq<Option<Map<Seq<char>, Seq<char>>>> {
    match matrix_entries(job) {
        Some(e) => if has_matrix(e) {
            let d = choose|d: MatrixDefinition| matrix_def_of(d, e);
            contexts(d, no_matrix).map_values(|c: Map<Seq<char>, Seq<char>>| Some(c))
        } else {
            seq![None]
        },
        None => seq![None],
    }
}

/// The expanded jobs of the first jobs of a workflow, in job order, each job's legs in order,
/// named after the job's position.
pub open spec fn expanded_spec(jobs: Seq<WorkflowJob>, no_matrix: bool, base: nat) -> Seq<(Seq<char>, Seq<char>, Option<Map<Seq<char>, Seq<char>>>)>
    decreases jobs.len(),
{
    if jobs.len() == 0 {
        Seq::empty()
    } else {
        let n = (jobs.len() - 1) as nat;
        let job = jobs.last();
        expanded_spec(jobs.drop_last(), no_matrix, base) + job_legs(job, no_matrix).map_values(
            |l: Option<Map<Seq<char>, Seq<char>>>| (job.id@, runner_name_spec(base, n, l), l),
        )
    }
}

/// An expanded job taken by its views.
pub open spec fn expanded_view(e: ExpandedWorkflowJob) -> (Seq<char>, Seq<char>, Option<Map<Seq<char>, Seq<char>>>) {
    (
        e.job_id@,
        e.runner_name@,
        match e.matrix_context {
            Some(c) => Some(text_map(c)),
            None => None,
        },
    )
}

/// Expanded jobs taken by their views.
pub open spec fn expanded_views(v: Seq<ExpandedWorkflowJob>) -> Seq<(Seq<char>, Seq<char>, Option<Map<Seq<char>, Seq<char>>>)> {
    v.map_values(|e: ExpandedWorkflowJob| expanded_view(e))
}

proof fn lemma_leg_index(c: Map<Seq<char>, Seq<char>>, total: nat, index: nat)
    requires
        index <= usize::MAX,
    ensures
        leg_index(with_metadata(c, total, index)) == index,
{
    lemma_decimal_reads_back(index);
    assert(with_metadata(c, total, index)["__job_index"@] == decimal(index));
}

/// Every expanded job carries a well-formed matrix context, if any.
pub open spec fn contexts_wf(v: Seq<ExpandedWorkflowJob>) -> bool {
    forall|i: int| 0 <= i < v.len() ==> ((#[trigger] v[i]).matrix_context matches Some(c) ==> c.wf())
}

/// Every job of a workflow, in job order, expanded into its matrix legs, each named for the run.
pub fn expand_workflow_jobs(workflow: &WorkflowDocument, no_matrix: bool, base_run_num: u32) -> (r: Vec<ExpandedWorkflowJob>)
    requires
        workflow.jobs.wf(),
    ensures
        expanded_views(r@) == expanded_spec(workflow.jobs.values(), no_matrix, base_run_num as nat),
        contexts_wf(r@),
{
    let ghost jobs = workflow.jobs.values();
    let mut r: Vec<ExpandedWorkflowJob> = Vec::new();
    let n = workflow.jobs.len();
    let mut a: usize = 0;
    assert(expanded_views(r@) =~= expanded_spec(jobs.take(0), no_matrix, base_run_num as nat));
    while a < n
        invariant
            workflow.jobs.wf(),
            jobs == workflow.jobs.values(),
            n == jobs.len(),
            a <= n,
            contexts_wf(r@),
            expanded_views(r@) == expanded_spec(jobs.take(a as int), no_matrix, base_run_num as nat),
        decreases n - a,
    {
        let job = workflow.jobs.value_at(a);
        let ghost before = expanded_views(r@);
        let ghost pre = jobs.take(a as int);
        let ghost cur = jobs.take(a + 1);
        assert(cur.drop_last() =~= pre);
        assert(cur.last() == *job);
        let ghost legs = job_legs(*job, no_matrix);
        let ghost want = legs.map_values(
            |l: Option<Map<Seq<char>, Seq<char>>>| (job.id@, runner_name_spec(base_run_num as nat, a as nat, l), l),
        );
        assert(expanded_spec(cur, no_matrix, base_run_num as nat) == before + want);
        match parse_matrix_def(job) {
            Some(matrix) => {
                let contexts_v = matrix_contexts(&matrix, no_matrix);
                let ghost e = matrix_entries(*job)->Some_0;
                proof {
                    let d = choose|d: MatrixDefinition| matrix_def_of(d, e);
                    lemma_matrix_def_unique(d, matrix, e, no_matrix);
                    assert(legs =~= text_maps(contexts_v@).map_values(|c: Map<Seq<char>, Seq<char>>| Some(c)));
                }
                let mut t: usize = 0;
                while t < contexts_v.len()
                    invariant
                        t <= contexts_v.len(),
                        a < n,
                        n <= usize::MAX,
                        all_wf(contexts_v@),
                        text_maps(contexts_v@) == contexts(matrix, no_matrix),
                        legs =~= text_maps(contexts_v@).map_values(|c: Map<Seq<char>, Seq<char>>| Some(c)),
                        want == legs.map_values(
                            |l: Option<Map<Seq<char>, Seq<char>>>| (job.id@, runner_name_spec(base_run_num as nat, a as nat, l), l),
                        ),
                        expanded_views(r@) == before + want.take(t as int),
                        contexts_wf(r@),
                    decreases contexts_v.len() - t,
                {
                    let context = contexts_v[t].duplicate();
                    proof {
                        let cs = contexts(matrix, no_matrix);
                        if no_matrix {
                            lemma_leg_index(first_values(matrix.axes, matrix.axes.keys().len() as int), 1, 0);
                        } else {
                            let c = combinations(matrix);
                            assert(cs[t as int] == with_metadata(c[t as int], c.len(), t as nat));
                            lemma_leg_index(c[t as int], c.len(), t as nat);
                        }
                        assert(text_map(context) == cs[t as int]);
                    }
                    let name = runner_name(base_run_num, a, Some(&context));
                    let ghost old_r = expanded_views(r@);
                    r.push(ExpandedWorkflowJob { job_id: job.id.clone(), runner_name: name, matrix_context: Some(context) });
                    assert(expanded_views(r@) =~= old_r.push(expanded_view(r@.last())));
                    assert(want.take(t + 1) =~= want.take(t as int).push(want[t as int]));
                    t += 1;
                }
                assert(want.take(contexts_v.len() as int) =~= want);
            },
            None => {
                let name = runner_name(base_run_num, a, None);
                let ghost old_r = expanded_views(r@);
                r.push(ExpandedWorkflowJob { job_id: job.id.clone(), runner_name: name, matrix_context: None });
                assert(expanded_views(r@) =~= old_r.push(expanded_view(r@.last())));
                assert(legs == seq![None::<Map<Seq<char>, Seq<char>>>]);
                assert(want =~= seq![(job.id@, runner_name_spec(base_run_num as nat, a as nat, None), None)]);
            },
        }
        a += 1;
    }
    assert(jobs.take(n as int) =~= jobs);
    r
}

} // verus!
