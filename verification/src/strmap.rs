//! Ordered maps keyed by strings, iterated in ascending key order.
use crate::text::chars_of;
use vstd::prelude::*;

verus! {

/// Lexicographic order on character sequences (the order of `String`'s `Ord`).
pub open spec fn seq_lt(a: Seq<char>, b: Seq<char>) -> bool {
    ||| (a.len() < b.len() && b.take(a.len() as int) == a)
    ||| exists|i: int|
        0 <= i < a.len() && i < b.len() && a.take(i) == b.take(i) && a[i] < b[i]
}

pub proof fn lemma_seq_lt_irreflexive(a: Seq<char>)
    ensures
        !seq_lt(a, a),
{
}

pub proof fn lemma_seq_lt_trichotomy(a: Seq<char>, b: Seq<char>)
    ensures
        a == b || seq_lt(a, b) || seq_lt(b, a),
        !(seq_lt(a, b) && seq_lt(b, a)),
        seq_lt(a, b) ==> a != b,
{
    let n = if a.len() < b.len() {
        a.len()
    } else {
        b.len()
    };
    // first index where they differ, if any
    if exists|i: int| 0 <= i < n && a[i] != b[i] {
        let i0 = choose|i: int| 0 <= i < n && a[i] != b[i];
        let i = first_diff(a, b, i0);
        assert(a.take(i) =~= b.take(i));
        if a[i] < b[i] {
            assert(seq_lt(a, b));
        } else {
            assert(b[i] < a[i]);
            assert(seq_lt(b, a));
        }
        lemma_lt_witness_unique(a, b, i);
    } else {
        if a.len() < b.len() {
            assert(b.take(a.len() as int) =~= a);
        } else if b.len() < a.len() {
            assert(a.take(b.len() as int) =~= b);
        } else {
            assert(a =~= b);
        }
        lemma_no_diff_no_witness(a, b, n as int);
    }
}

proof fn first_diff(a: Seq<char>, b: Seq<char>, i0: int) -> (i: int)
    requires
        0 <= i0 < a.len(),
        i0 < b.len(),
        a[i0] != b[i0],
    ensures
        0 <= i <= i0,
        a[i] != b[i],
        forall|j: int| 0 <= j < i ==> a[j] == b[j],
    decreases i0,
{
    if exists|j: int| 0 <= j < i0 && a[j] != b[j] {
        let j = choose|j: int| 0 <= j < i0 && a[j] != b[j];
        first_diff(a, b, j)
    } else {
        i0
    }
}

proof fn lemma_lt_witness_unique(a: Seq<char>, b: Seq<char>, i: int)
    requires
        0 <= i < a.len(),
        i < b.len(),
        a[i] != b[i],
        forall|j: int| 0 <= j < i ==> a[j] == b[j],
    ensures
        !(seq_lt(a, b) && seq_lt(b, a)),
        seq_lt(a, b) <==> a[i] < b[i],
        seq_lt(b, a) <==> b[i] < a[i],
{
    assert(a.take(i) =~= b.take(i));
    assert forall|k: int|
        0 <= k < a.len() && k < b.len() && a.take(k) == b.take(k) && a[k] != b[k] implies k == i by {
        if k > i {
            assert(a.take(k)[i] == b.take(k)[i]);
        }
    }
    if seq_lt(a, b) {
        if a.len() < b.len() && b.take(a.len() as int) == a {
            assert(b.take(a.len() as int)[i] == a[i]);
        } else {
            let k = choose|k: int|
                0 <= k < a.len() && k < b.len() && a.take(k) == b.take(k) && a[k] < b[k];
            assert(k == i);
        }
    }
    if seq_lt(b, a) {
        if b.len() < a.len() && a.take(b.len() as int) == b {
            assert(a.take(b.len() as int)[i] == b[i]);
        } else {
            let k = choose|k: int|
                0 <= k < b.len() && k < a.len() && b.take(k) == a.take(k) && b[k] < a[k];
            assert(k == i);
        }
    }
    if a[i] < b[i] {
        assert(seq_lt(a, b));
    }
    if b[i] < a[i] {
        assert(b.take(i) =~= a.take(i));
        assert(seq_lt(b, a));
    }
}

proof fn lemma_no_diff_no_witness(a: Seq<char>, b: Seq<char>, n: int)
    requires
        n == if a.len() < b.len() {
            a.len() as int
        } else {
            b.len() as int
        },
        forall|i: int| 0 <= i < n ==> a[i] == b[i],
    ensures
        !(seq_lt(a, b) && seq_lt(b, a)),
{
}

pub proof fn lemma_seq_lt_transitive(a: Seq<char>, b: Seq<char>, c: Seq<char>)
    requires
        seq_lt(a, b),
        seq_lt(b, c),
    ensures
        seq_lt(a, c),
{
    // position where a and b first differ (or a.len() when a is a proper prefix of b)
    let i = lt_pos(a, b);
    let j = lt_pos(b, c);
    if i < j {
        // a and c agree up to i, and at i a is below b == c
        assert(c.take(i) =~= a.take(i)) by {
            assert forall|k: int| 0 <= k < i implies c[k] == a[k] by {
                assert(b.take(j)[k] == c.take(j)[k]);
                assert(a.take(i)[k] == b.take(i)[k]);
            }
        }
        if i < a.len() {
            assert(b.take(j)[i] == c.take(j)[i]);
            assert(a[i] < c[i]);
        } else {
            assert(c.take(a.len() as int) =~= a);
        }
    } else if j < i {
        assert(c.take(j) =~= a.take(j)) by {
            assert forall|k: int| 0 <= k < j implies c[k] == a[k] by {
                assert(b.take(j)[k] == c.take(j)[k]);
                assert(a.take(i)[k] == b.take(i)[k]);
            }
        }
        assert(a.take(i)[j] == b.take(i)[j]);
        if j < c.len() {
            assert(a[j] < c[j]);
        }
    } else {
        assert(c.take(i) =~= a.take(i)) by {
            assert forall|k: int| 0 <= k < i implies c[k] == a[k] by {
                assert(b.take(j)[k] == c.take(j)[k]);
                assert(a.take(i)[k] == b.take(i)[k]);
            }
        }
        if i < a.len() {
            assert(a[i] < c[i]);
        }
    }
}

/// The index at which `a` falls below `b`: the first difference, or `a.len()` for a proper prefix.
proof fn lt_pos(a: Seq<char>, b: Seq<char>) -> (i: int)
    requires
        seq_lt(a, b),
    ensures
        0 <= i <= a.len(),
        i < b.len(),
        a.take(i) == b.take(i),
        i < a.len() ==> a[i] < b[i],
        i == a.len() ==> b.take(a.len() as int) == a,
{
    if a.len() < b.len() && b.take(a.len() as int) == a {
        assert(a.take(a.len() as int) =~= a);
        a.len() as int
    } else {
        choose|i: int|
            0 <= i < a.len() && i < b.len() && a.take(i) == b.take(i) && a[i] < b[i]
    }
}

/// Three-way comparison of character slices: -1, 0 or 1.
pub fn compare_chars(a: &[char], b: &[char]) -> (r: i8)
    ensures
        r == -1 <==> seq_lt(a@, b@),
        r == 0 <==> a@ == b@,
        r == 1 <==> seq_lt(b@, a@),
        -1 <= r <= 1,
{
    let mut i: usize = 0;
    while i < a.len() && i < b.len()
        invariant
            i <= a.len(),
            i <= b.len(),
            a@.take(i as int) == b@.take(i as int),
        decreases a.len() - i,
    {
        if a[i] != b[i] {
            proof {
                lemma_seq_lt_trichotomy(a@, b@);
                assert forall|j: int| 0 <= j < i implies a@[j] == b@[j] by {
                    assert(a@.take(i as int)[j] == b@.take(i as int)[j]);
                }
                lemma_lt_witness_unique(a@, b@, i as int);
            }
            if a[i] < b[i] {
                return -1;
            } else {
                return 1;
            }
        }
        assert(a@.take(i + 1) =~= a@.take(i as int).push(a@[i as int]));
        assert(b@.take(i + 1) =~= b@.take(i as int).push(b@[i as int]));
        i += 1;
    }
    proof {
        lemma_seq_lt_trichotomy(a@, b@);
        assert forall|j: int| 0 <= j < i implies a@[j] == b@[j] by {
            assert(a@.take(i as int)[j] == b@.take(i as int)[j]);
        }
        lemma_no_diff_no_witness(a@, b@, i as int);
    }
    if a.len() < b.len() {
        assert(b@.take(a.len() as int) =~= a@);
        -1
    } else if b.len() < a.len() {
        assert(a@.take(b.len() as int) =~= b@);
        1
    } else {
        assert(a@ =~= b@);
        0
    }
}

/// Three-way comparison of strings.
pub fn compare_str(a: &str, b: &str) -> (r: i8)
    ensures
        r == -1 <==> seq_lt(a@, b@),
        r == 0 <==> a@ == b@,
        r == 1 <==> seq_lt(b@, a@),
        -1 <= r <= 1,
{
    let x = chars_of(a);
    let y = chars_of(b);
    compare_chars(x.as_slice(), y.as_slice())
}

/// Keys strictly increasing.
pub open spec fn sorted_keys(keys: Seq<Seq<char>>) -> bool {
    forall|i: int, j: int| 0 <= i < j < keys.len() ==> seq_lt(#[trigger] keys[i], #[trigger] keys[j])
}

/// The ascending sequence of the members of a finite set of strings.
pub open spec fn sorted_seq_of(s: Set<Seq<char>>) -> Seq<Seq<char>> {
    choose|q: Seq<Seq<char>>| sorted_keys(q) && q.to_set() == s
}

/// Two ascending sequences with the same members are equal.
pub proof fn lemma_sorted_unique(a: Seq<Seq<char>>, b: Seq<Seq<char>>)
    requires
        sorted_keys(a),
        sorted_keys(b),
        a.to_set() == b.to_set(),
    ensures
        a == b,
    decreases a.len(),
{
    if a.len() == 0 {
        if b.len() > 0 {
            assert(b.to_set().contains(b[0]));
        }
        assert(a =~= b);
    } else {
        assert(a.to_set().contains(a[0]));
        assert(b.len() > 0);
        assert(b.to_set().contains(b[0]));
        let i = choose|i: int| 0 <= i < a.len() && a[i] == b[0];
        let j = choose|j: int| 0 <= j < b.len() && b[j] == a[0];
        if j > 0 {
            assert(seq_lt(b[0], b[j]));
            if i > 0 {
                assert(seq_lt(a[0], a[i]));
                lemma_seq_lt_trichotomy(a[0], b[0]);
            } else {
                lemma_seq_lt_irreflexive(a[0]);
            }
        }
        assert(a[0] == b[0]);
        let a1 = a.skip(1);
        let b1 = b.skip(1);
        assert forall|x: Seq<char>| a1.to_set().contains(x) <==> b1.to_set().contains(x) by {
            if a1.to_set().contains(x) {
                let k = choose|k: int| 0 <= k < a1.len() && a1[k] == x;
                assert(seq_lt(a[0], a[k + 1]));
                lemma_seq_lt_irreflexive(a[0]);
                assert(a.to_set().contains(x));
                let m = choose|m: int| 0 <= m < b.len() && b[m] == x;
                assert(m != 0);
                assert(b1[m - 1] == x);
            }
            if b1.to_set().contains(x) {
                let k = choose|k: int| 0 <= k < b1.len() && b1[k] == x;
                assert(seq_lt(b[0], b[k + 1]));
                lemma_seq_lt_irreflexive(b[0]);
                assert(b.to_set().contains(x));
                let m = choose|m: int| 0 <= m < a.len() && a[m] == x;
                assert(m != 0);
                assert(a1[m - 1] == x);
            }
        }
        assert(a1.to_set() =~= b1.to_set());
        lemma_sorted_unique(a1, b1);
        assert(a =~= seq![a[0]] + a1);
        assert(b =~= seq![b[0]] + b1);
    }
}

/// An ascending sequence of a set's members is the one `sorted_seq_of` names.
pub proof fn lemma_sorted_seq_of(q: Seq<Seq<char>>)
    requires
        sorted_keys(q),
    ensures
        sorted_seq_of(q.to_set()) == q,
{
    let r = sorted_seq_of(q.to_set());
    assert(sorted_keys(r) && r.to_set() == q.to_set());
    lemma_sorted_unique(r, q);
}

/// A map from strings to values, kept in ascending key order.
#[derive(Debug, Clone, PartialEq, Eq)]
pub struct StrMap<V> {
    entries: Vec<(String, V)>,
}

impl<V> StrMap<V> {
    /// The entries, in ascending key order.
    pub closed spec fn pairs(self) -> Seq<(Seq<char>, V)> {
        self.entries@.map_values(|e: (String, V)| (e.0@, e.1))
    }

    /// The keys, in ascending order.
    pub open spec fn keys(self) -> Seq<Seq<char>> {
        self.pairs().map_values(|p: (Seq<char>, V)| p.0)
    }

    /// The values, in key order.
    pub open spec fn values(self) -> Seq<V> {
        self.pairs().map_values(|p: (Seq<char>, V)| p.1)
    }

    pub open spec fn wf(self) -> bool {
        sorted_keys(self.keys())
    }

    /// The index of a key in `keys()`, when present.
    pub open spec fn has_key(self, k: Seq<char>) -> bool {
        self.keys().contains(k)
    }

    pub open spec fn index_of(self, k: Seq<char>) -> int {
        choose|i: int| 0 <= i < self.keys().len() && self.keys()[i] == k
    }

    /// The value stored under `k` (meaningful when `has_key(k)`).
    pub open spec fn value_of(self, k: Seq<char>) -> V {
        self.values()[self.index_of(k)]
    }

    /// Lookup as an optional value.
    pub open spec fn lookup(self, k: Seq<char>) -> Option<V> {
        if self.has_key(k) {
            Some(self.value_of(k))
        } else {
            None
        }
    }

    pub proof fn lemma_index_of(self, i: int)
        requires
            self.wf(),
            0 <= i < self.keys().len(),
        ensures
            self.has_key(self.keys()[i]),
            self.index_of(self.keys()[i]) == i,
            self.lookup(self.keys()[i]) == Some(self.values()[i]),
    {
        let k = self.keys()[i];
        assert(self.keys()[i] == k);
        let j = self.index_of(k);
        if j != i {
            if j < i {
                assert(seq_lt(self.keys()[j], self.keys()[i]));
            } else {
                assert(seq_lt(self.keys()[i], self.keys()[j]));
            }
            lemma_seq_lt_irreflexive(k);
        }
    }

    /// An empty map.
    pub fn new() -> (m: Self)
        ensures
            m.wf(),
            m.pairs() == Seq::<(Seq<char>, V)>::empty(),
    {
        let m = StrMap { entries: Vec::new() };
        assert(m.pairs() =~= Seq::<(Seq<char>, V)>::empty());
        m
    }

    /// Number of entries.
    pub fn len(&self) -> (n: usize)
        ensures
            n == self.pairs().len(),
    {
        self.entries.len()
    }

    /// The map has no entries.
    pub fn is_empty(&self) -> (b: bool)
        ensures
            b == (self.pairs().len() == 0),
    {
        self.entries.len() == 0
    }

    /// The key at position `i`.
    pub fn key_at(&self, i: usize) -> (k: &String)
        requires
            i < self.pairs().len(),
        ensures
            k@ == self.keys()[i as int],
    {
        &self.entries[i].0
    }

    /// The value at position `i`.
    pub fn value_at(&self, i: usize) -> (v: &V)
        requires
            i < self.pairs().len(),
        ensures
            *v == self.values()[i as int],
    {
        &self.entries[i].1
    }

    /// Position of `k`, when present.
    pub fn position(&self, k: &str) -> (r: Option<usize>)
        requires
            self.wf(),
        ensures
            r matches Some(i) ==> i < self.keys().len() && self.keys()[i as int] == k@,
            r is Some <==> self.has_key(k@),
    {
        let kc = chars_of(k);
        let mut i: usize = 0;
        while i < self.entries.len()
            invariant
                kc@ == k@,
                i <= self.entries@.len(),
                self.keys().len() == self.entries@.len(),
                forall|j: int| 0 <= j < i ==> self.keys()[j] != k@,
            decreases self.entries.len() - i,
        {
            let c = compare_str(self.entries[i].0.as_str(), k);
            assert(self.keys()[i as int] == self.entries@[i as int].0@);
            if c == 0 {
                return Some(i);
            }
            i += 1;
        }
        assert(!self.keys().contains(k@));
        None
    }

    /// The value stored under `k`.
    pub fn get(&self, k: &str) -> (r: Option<&V>)
        requires
            self.wf(),
        ensures
            r matches Some(v) ==> self.lookup(k@) == Some(*v),
            r is None ==> self.lookup(k@) is None,
    {
        match self.position(k) {
            Some(i) => {
                proof {
                    self.lemma_index_of(i as int);
                }
                Some(&self.entries[i].1)
            },
            None => None,
        }
    }

    /// `k` is a key of the map.
    pub fn contains_key(&self, k: &str) -> (b: bool)
        requires
            self.wf(),
        ensures
            b == self.has_key(k@),
    {
        self.position(k).is_some()
    }

    /// Removes the entry under `k`, when there is one, and gives back its value.
    pub fn remove(&mut self, k: &str) -> (r: Option<V>)
        requires
            old(self).wf(),
        ensures
            r == old(self).lookup(k@),
            final(self).wf(),
            final(self).lookup(k@) is None,
            forall|q: Seq<char>| q != k@ ==> #[trigger] final(self).lookup(q) == old(self).lookup(q),
            final(self).keys().to_set() == old(self).keys().to_set().remove(k@),
    {
        let ghost old_self = *self;
        match self.position(k) {
            Some(i) => {
                let (_, v) = self.entries.remove(i);
                proof {
                    old_self.lemma_index_of(i as int);
                    assert(old_self.values()[i as int] == v);
                    assert(self.pairs() =~= old_self.pairs().remove(i as int));
                    assert(self.keys() =~= old_self.keys().remove(i as int));
                    assert(self.values() =~= old_self.values().remove(i as int));
                    assert forall|a: int, b: int| 0 <= a < b < self.keys().len() implies seq_lt(
                        #[trigger] self.keys()[a],
                        #[trigger] self.keys()[b],
                    ) by {
                        let oa = if a < i { a } else { a + 1 };
                        let ob = if b < i { b } else { b + 1 };
                        assert(self.keys()[a] == old_self.keys()[oa]);
                        assert(self.keys()[b] == old_self.keys()[ob]);
                    }
                    assert(!self.keys().contains(k@)) by {
                        if self.keys().contains(k@) {
                            let j = choose|j: int| 0 <= j < self.keys().len() && self.keys()[j] == k@;
                            let oj = if j < i { j } else { j + 1 };
                            assert(old_self.keys()[oj] == k@);
                            if oj < i {
                                assert(seq_lt(old_self.keys()[oj], old_self.keys()[i as int]));
                            } else {
                                assert(seq_lt(old_self.keys()[i as int], old_self.keys()[oj]));
                            }
                            lemma_seq_lt_irreflexive(k@);
                        }
                    }
                    assert forall|q: Seq<char>| q != k@ implies #[trigger] self.lookup(q) == old_self.lookup(q) by {
                        if old_self.has_key(q) {
                            let oj = old_self.index_of(q);
                            assert(oj != i);
                            let j = if oj < i { oj } else { oj - 1 };
                            assert(self.keys()[j] == q);
                            self.lemma_index_of(j);
                            old_self.lemma_index_of(oj);
                        } else {
                            if self.has_key(q) {
                                let j = self.index_of(q);
                                let oj = if j < i { j } else { j + 1 };
                                assert(old_self.keys()[oj] == q);
                            }
                        }
                    }
                    assert forall|q: Seq<char>| self.keys().to_set().contains(q) == old_self.keys().to_set().remove(k@).contains(q) by {
                        if q != k@ {
                            assert(self.lookup(q) == old_self.lookup(q));
                        }
                    }
                    assert(self.keys().to_set() =~= old_self.keys().to_set().remove(k@));
                }
                Some(v)
            },
            None => {
                assert(old_self.keys().to_set() =~= old_self.keys().to_set().remove(k@));
                None
            },
        }
    }

    /// The first position whose key is not below `k`, and whether that key equals `k`.
    fn lower_bound(&self, k: &str) -> (r: (usize, bool))
        requires
            self.wf(),
        ensures
            r.0 <= self.keys().len(),
            forall|j: int| 0 <= j < r.0 ==> seq_lt(#[trigger] self.keys()[j], k@),
            r.1 ==> r.0 < self.keys().len() && self.keys()[r.0 as int] == k@,
            !r.1 ==> r.0 < self.keys().len() ==> seq_lt(k@, self.keys()[r.0 as int]),
            r.1 <==> self.has_key(k@),
    {
        let mut i: usize = 0;
        while i < self.entries.len()
            invariant
                self.wf(),
                i <= self.entries@.len(),
                self.keys().len() == self.entries@.len(),
                forall|j: int| 0 <= j < i ==> seq_lt(#[trigger] self.keys()[j], k@),
            decreases self.entries.len() - i,
        {
            let c = compare_str(self.entries[i].0.as_str(), k);
            assert(self.keys()[i as int] == self.entries@[i as int].0@);
            if c == 0 {
                return (i, true);
            }
            if c == 1 {
                proof {
                    assert(!self.has_key(k@)) by {
                        if self.keys().contains(k@) {
                            let j = choose|j: int| 0 <= j < self.keys().len() && self.keys()[j] == k@;
                            if j < i {
                                lemma_seq_lt_irreflexive(k@);
                            } else {
                                if i < j {
                                    assert(seq_lt(self.keys()[i as int], self.keys()[j]));
                                }
                                lemma_seq_lt_trichotomy(k@, self.keys()[i as int]);
                            }
                        }
                    }
                }
                return (i, false);
            }
            i += 1;
        }
        proof {
            assert(!self.has_key(k@)) by {
                if self.keys().contains(k@) {
                    let j = choose|j: int| 0 <= j < self.keys().len() && self.keys()[j] == k@;
                    lemma_seq_lt_irreflexive(k@);
                }
            }
        }
        (i, false)
    }

    /// Inserts or replaces the value under `k`.
    pub fn insert(&mut self, k: String, v: V)
        requires
            old(self).wf(),
        ensures
            final(self).wf(),
            old(self).has_key(k@) ==> final(self).pairs() == old(self).pairs().update(
                old(self).index_of(k@),
                (k@, v),
            ),
            !old(self).has_key(k@) ==> exists|p: int|
                0 <= p <= old(self).pairs().len() && final(self).pairs() == old(self).pairs().insert(
                    p,
                    (k@, v),
                ),
            final(self).lookup(k@) == Some(v),
            forall|q: Seq<char>| q != k@ ==> #[trigger] final(self).lookup(q) == old(self).lookup(q),
            final(self).keys().to_set() == old(self).keys().to_set().insert(k@),
    {
        let ghost old_self = *self;
        let (i, found) = self.lower_bound(k.as_str());
        if found {
            proof {
                old_self.lemma_index_of(i as int);
            }
            self.entries.set(i, (k, v));
            proof {
                assert(self.pairs() =~= old_self.pairs().update(i as int, (k@, v)));
                assert(self.keys() =~= old_self.keys());
                self.lemma_index_of(i as int);
                self.lemma_lookup_update(old_self, i as int);
                assert(self.keys().to_set() =~= old_self.keys().to_set().insert(k@));
            }
            return;
        }
        self.entries.insert(i, (k, v));
        proof {
            assert(self.pairs() =~= old_self.pairs().insert(i as int, (k@, v)));
            assert(self.keys() =~= old_self.keys().insert(i as int, k@));
            assert forall|a: int, b: int| 0 <= a < b < self.keys().len() implies seq_lt(
                #[trigger] self.keys()[a],
                #[trigger] self.keys()[b],
            ) by {
                let os = old_self.keys();
                if b < i {
                    assert(seq_lt(os[a], os[b]));
                } else if b == i {
                    assert(seq_lt(os[a], k@));
                } else if a < i {
                    assert(seq_lt(os[a], k@));
                    if b - 1 > i {
                        assert(seq_lt(os[i as int], os[b - 1]));
                        lemma_seq_lt_transitive(k@, os[i as int], os[b - 1]);
                    }
                    lemma_seq_lt_transitive(os[a], k@, os[b - 1]);
                } else if a == i {
                    if b - 1 > i {
                        assert(seq_lt(os[i as int], os[b - 1]));
                        lemma_seq_lt_transitive(k@, os[i as int], os[b - 1]);
                    }
                } else {
                    assert(seq_lt(os[a - 1], os[b - 1]));
                }
            }
            self.lemma_index_of(i as int);
            self.lemma_lookup_insert(old_self, i as int);
            assert forall|x: Seq<char>| self.keys().contains(x) <==> old_self.keys().contains(x) || x == k@ by {
                if self.keys().contains(x) {
                    let j = choose|j: int| 0 <= j < self.keys().len() && self.keys()[j] == x;
                    if j < i {
                        assert(old_self.keys()[j] == x);
                    } else if j > i {
                        assert(old_self.keys()[j - 1] == x);
                    }
                }
                if old_self.keys().contains(x) {
                    let j = choose|j: int| 0 <= j < old_self.keys().len() && old_self.keys()[j] == x;
                    if j < i {
                        assert(self.keys()[j] == x);
                    } else {
                        assert(self.keys()[j + 1] == x);
                    }
                }
                if x == k@ {
                    assert(self.keys()[i as int] == x);
                }
            }
            assert(self.keys().to_set() =~= old_self.keys().to_set().insert(k@));
        }
    }

    proof fn lemma_lookup_update(self, old_self: Self, i: int)
        requires
            self.wf(),
            old_self.wf(),
            0 <= i < old_self.pairs().len(),
            self.keys() == old_self.keys(),
            self.pairs() == old_self.pairs().update(i, self.pairs()[i]),
        ensures
            forall|q: Seq<char>| q != self.keys()[i] ==> #[trigger] self.lookup(q) == old_self.lookup(q),
    {
        assert forall|q: Seq<char>| q != self.keys()[i] implies #[trigger] self.lookup(q)
            == old_self.lookup(q) by {
            if self.has_key(q) {
                let j = self.index_of(q);
                self.lemma_index_of(j);
                old_self.lemma_index_of(j);
                assert(self.values()[j] == self.pairs()[j].1);
                assert(old_self.values()[j] == old_self.pairs()[j].1);
            }
        }
    }

    proof fn lemma_lookup_insert(self, old_self: Self, i: int)
        requires
            self.wf(),
            old_self.wf(),
            0 <= i <= old_self.pairs().len(),
            self.pairs() == old_self.pairs().insert(i, self.pairs()[i]),
        ensures
            forall|q: Seq<char>| q != self.keys()[i] ==> #[trigger] self.lookup(q) == old_self.lookup(q),
    {
        assert(self.keys() =~= old_self.keys().insert(i, self.keys()[i]));
        assert forall|q: Seq<char>| q != self.keys()[i] implies #[trigger] self.lookup(q)
            == old_self.lookup(q) by {
            if self.has_key(q) {
                let j = self.index_of(q);
                self.lemma_index_of(j);
                let oj = if j < i {
                    j
                } else {
                    j - 1
                };
                assert(old_self.keys()[oj] == q);
                old_self.lemma_index_of(oj);
                assert(old_self.values()[oj] == old_self.pairs()[oj].1);
                assert(self.values()[j] == self.pairs()[j].1);
            } else if old_self.has_key(q) {
                let oj = old_self.index_of(q);
                let j = if oj < i {
                    oj
                } else {
                    oj + 1
                };
                assert(self.keys()[j] == q);
            }
        }
    }
}

impl<V: Clone> StrMap<V> {
    /// A copy of the map (values cloned).
    pub fn copy(&self) -> (m: Self)
        requires
            self.wf(),
        ensures
            m.wf(),
            m.keys() == self.keys(),
            forall|i: int| 0 <= i < self.pairs().len() ==> cloned::<V>(self.values()[i], #[trigger] m.values()[i]),
    {
        let mut entries: Vec<(String, V)> = Vec::new();
        let mut i: usize = 0;
        while i < self.entries.len()
            invariant
                i <= self.entries@.len(),
                entries@.len() == i,
                forall|j: int| 0 <= j < i ==> #[trigger] entries@[j].0@ == self.entries@[j].0@,
                forall|j: int| 0 <= j < i ==> cloned::<V>(self.entries@[j].1, #[trigger] entries@[j].1),
            decreases self.entries.len() - i,
        {
            let k = self.entries[i].0.clone();
            let v = self.entries[i].1.clone();
            entries.push((k, v));
            i += 1;
        }
        let m = StrMap { entries };
        assert(m.keys() =~= self.keys());
        assert forall|j: int| 0 <= j < self.pairs().len() implies cloned::<V>(self.values()[j], #[trigger] m.values()[j]) by {
            assert(self.values()[j] == self.entries@[j].1);
            assert(m.values()[j] == m.entries@[j].1);
        }
        m
    }
}


/// A map of strings as a mathematical map from keys to the values' text.
pub open spec fn text_map(m: StrMap<String>) -> Map<Seq<char>, Seq<char>> {
    Map::new(|k: Seq<char>| m.lookup(k) is Some, |k: Seq<char>| m.lookup(k)->0@)
}

/// The map formed by the first `n` entries.
pub open spec fn prefix_text_map(m: StrMap<String>, n: int) -> Map<Seq<char>, Seq<char>>
    decreases n,
{
    if n <= 0 {
        Map::empty()
    } else {
        prefix_text_map(m, n - 1).insert(m.keys()[n - 1], m.values()[n - 1]@)
    }
}

/// After an insertion, the text map gains (or replaces) that one key.
pub proof fn lemma_text_map_insert(before: StrMap<String>, after: StrMap<String>, k: Seq<char>, v: Seq<char>)
    requires
        after.lookup(k) matches Some(s) && s@ == v,
        forall|q: Seq<char>| q != k ==> #[trigger] after.lookup(q) == before.lookup(q),
    ensures
        text_map(after) == text_map(before).insert(k, v),
{
    assert forall|q: Seq<char>| #[trigger] text_map(after).contains_key(q) == text_map(before).insert(k, v).contains_key(q) by {
        if q != k {
            assert(after.lookup(q) == before.lookup(q));
        }
    }
    assert(text_map(after) =~= text_map(before).insert(k, v));
}

/// All entries together give the whole text map.
pub proof fn lemma_prefix_text_map_full(m: StrMap<String>)
    requires
        m.wf(),
    ensures
        prefix_text_map(m, m.keys().len() as int) == text_map(m),
{
    lemma_prefix_text_map_keys(m, m.keys().len() as int);
    assert forall|k: Seq<char>| #[trigger] prefix_text_map(m, m.keys().len() as int).contains_key(k) == text_map(m).contains_key(k) by {
        if m.has_key(k) {
            let j = m.index_of(k);
            m.lemma_index_of(j);
        }
    }
    assert forall|k: Seq<char>| #[trigger] text_map(m).contains_key(k) implies prefix_text_map(m, m.keys().len() as int)[k] == text_map(m)[k] by {
        let j = m.index_of(k);
        m.lemma_index_of(j);
    }
    assert(prefix_text_map(m, m.keys().len() as int) =~= text_map(m));
}

/// What the first `n` entries map each of their keys to.
pub proof fn lemma_prefix_text_map_keys(m: StrMap<String>, n: int)
    requires
        m.wf(),
        0 <= n <= m.keys().len(),
    ensures
        forall|k: Seq<char>| #[trigger] prefix_text_map(m, n).contains_key(k) <==> exists|j: int| 0 <= j < n && m.keys()[j] == k,
        forall|j: int| 0 <= j < n ==> #[trigger] prefix_text_map(m, n)[m.keys()[j]] == m.values()[j]@,
    decreases n,
{
    if n > 0 {
        lemma_prefix_text_map_keys(m, n - 1);
        assert forall|k: Seq<char>| #[trigger] prefix_text_map(m, n).contains_key(k) <==> exists|j: int| 0 <= j < n && m.keys()[j] == k by {
            if prefix_text_map(m, n).contains_key(k) && k != m.keys()[n - 1] {
                assert(prefix_text_map(m, n - 1).contains_key(k));
                let j = choose|j: int| 0 <= j < n - 1 && m.keys()[j] == k;
                assert(0 <= j < n && m.keys()[j] == k);
            }
            if exists|j: int| 0 <= j < n && m.keys()[j] == k {
                let j = choose|j: int| 0 <= j < n && m.keys()[j] == k;
                if j < n - 1 {
                    assert(prefix_text_map(m, n - 1).contains_key(k));
                }
            }
        }
        assert forall|j: int| 0 <= j < n implies #[trigger] prefix_text_map(m, n)[m.keys()[j]] == m.values()[j]@ by {
            if j < n - 1 {
                assert(seq_lt(m.keys()[j], m.keys()[n - 1]));
                lemma_seq_lt_irreflexive(m.keys()[j]);
                assert(m.keys()[j] != m.keys()[n - 1]);
                assert(prefix_text_map(m, n - 1)[m.keys()[j]] == m.values()[j]@);
            }
        }
    }
}

impl StrMap<String> {
    /// A copy of a map of strings.
    pub fn duplicate(&self) -> (m: Self)
        requires
            self.wf(),
        ensures
            m.wf(),
            m.pairs() == self.pairs(),
            text_map(m) == text_map(*self),
    {
        let mut entries: Vec<(String, String)> = Vec::new();
        let mut i: usize = 0;
        while i < self.entries.len()
            invariant
                i <= self.entries@.len(),
                entries@.len() == i,
                forall|j: int| 0 <= j < i ==> #[trigger] entries@[j] == self.entries@[j],
            decreases self.entries.len() - i,
        {
            let k = self.entries[i].0.clone();
            let v = self.entries[i].1.clone();
            entries.push((k, v));
            i += 1;
        }
        let m = StrMap { entries };
        assert(m.entries@ =~= self.entries@);
        m
    }

    /// Adds every entry of `other`, replacing values under keys both have.
    pub fn extend_from(&mut self, other: &StrMap<String>)
        requires
            old(self).wf(),
            other.wf(),
        ensures
            final(self).wf(),
            text_map(*final(self)) == text_map(*old(self)).union_prefer_right(text_map(*other)),
    {
        let ghost start = text_map(*self);
        let mut i: usize = 0;
        while i < other.entries.len()
            invariant
                self.wf(),
                other.wf(),
                i <= other.entries@.len(),
                other.keys().len() == other.entries@.len(),
                text_map(*self) == start.union_prefer_right(prefix_text_map(*other, i as int)),
            decreases other.entries.len() - i,
        {
            let ghost before = *self;
            let k = other.entries[i].0.clone();
            let v = other.entries[i].1.clone();
            assert(k@ == other.keys()[i as int]);
            assert(v@ == other.values()[i as int]@);
            self.insert(k, v);
            proof {
                lemma_text_map_insert(before, *self, k@, v@);
                assert(text_map(*self) =~= start.union_prefer_right(prefix_text_map(*other, i + 1)));
            }
            i += 1;
        }
        proof {
            lemma_prefix_text_map_full(*other);
        }
    }
}
} // verus!

verus! {

/// A set of strings.
#[derive(Debug, Clone, PartialEq, Eq)]
pub struct StrSet {
    map: StrMap<()>,
}

impl StrSet {
    /// The members.
    pub closed spec fn members(self) -> Set<Seq<char>> {
        self.map.keys().to_set()
    }

    pub closed spec fn wf(self) -> bool {
        self.map.wf()
    }

    /// An empty set.
    pub fn new() -> (s: Self)
        ensures
            s.wf(),
            s.members() == Set::<Seq<char>>::empty(),
    {
        let s = StrSet { map: StrMap::new() };
        assert(s.members() =~= Set::<Seq<char>>::empty());
        s
    }

    /// Adds a member.
    pub fn insert(&mut self, k: String)
        requires
            old(self).wf(),
        ensures
            final(self).wf(),
            final(self).members() == old(self).members().insert(k@),
    {
        self.map.insert(k, ());
    }

    /// Removes a member.
    pub fn remove(&mut self, k: &str)
        requires
            old(self).wf(),
        ensures
            final(self).wf(),
            final(self).members() == old(self).members().remove(k@),
    {
        self.map.remove(k);
    }

    /// Membership test.
    pub fn contains(&self, k: &str) -> (b: bool)
        requires
            self.wf(),
        ensures
            b == self.members().contains(k@),
    {
        self.map.contains_key(k)
    }

    /// The set has no members.
    pub fn is_empty(&self) -> (b: bool)
        requires
            self.wf(),
        ensures
            b == (self.members() == Set::<Seq<char>>::empty()),
    {
        let b = self.map.is_empty();
        proof {
            if b {
                assert(self.members() =~= Set::<Seq<char>>::empty());
            } else {
                assert(self.members().contains(self.map.keys()[0]));
            }
        }
        b
    }
}

/// Inserts into a map of strings, with the text-map view of the effect.
pub fn insert_text(m: &mut StrMap<String>, k: &str, v: &str)
    requires
        old(m).wf(),
    ensures
        final(m).wf(),
        text_map(*final(m)) == text_map(*old(m)).insert(k@, v@),
{
    let ghost before = *m;
    m.insert(k.to_owned(), v.to_owned());
    proof {
        lemma_text_map_insert(before, *m, k@, v@);
    }
}

} // verus!

