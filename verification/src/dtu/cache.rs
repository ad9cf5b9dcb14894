//! The DTU server's cache service: the caches it holds, the uploads in progress, and which
//! archive a lookup finds.
use crate::dtu::state::{cache_id_from_archive_location, cache_id_spec};
use crate::strmap::StrMap;
use crate::text::{cat, contains, contains_seq, decimal, first_index_of, is_suffix, split_char, split_on_char, trim,
    trim_end_matches, trim_str, u64_to_string, views, lemma_split_char_nonempty, lemma_decimal_reads_back,
    all_digits, unsigned_literal, bounded};
use vstd::prelude::*;

verus! {

/// A stored cache: the version it was saved for, where its archive is, and its size.
#[derive(Debug, Clone, PartialEq, Eq)]
pub struct CacheEntry {
    pub version: String,
    pub archive_location: String,
    pub size: u64,
}

/// A cache being uploaded: its temporary file, key and version.
#[derive(Debug, Clone, PartialEq, Eq)]
pub struct PendingCache {
    pub temp_path: String,
    pub key: String,
    pub version: String,
}

/// The caches the server holds, the uploads in progress (a later upload under an id replaces an
/// earlier one), and the key patterns it serves virtually.
#[derive(Debug)]
pub struct CacheRegistry {
    caches: StrMap<CacheEntry>,
    pending: Vec<(u64, PendingCache)>,
    virtual_patterns: Vec<String>,
}

/// The cache of an upload in progress, by id: the latest one recorded.
pub open spec fn pending_lookup(s: Seq<(u64, PendingCache)>, id: u64) -> Option<PendingCache>
    decreases s.len(),
{
    if s.len() == 0 {
        None
    } else if s.last().0 == id {
        Some(s.last().1)
    } else {
        pending_lookup(s.drop_last(), id)
    }
}

/// A stored cache as texts and its size.
pub open spec fn entry_view(e: CacheEntry) -> (Seq<char>, Seq<char>, u64) {
    (e.version@, e.archive_location@, e.size)
}

/// The stored caches by key.
pub open spec fn cache_map(m: StrMap<CacheEntry>) -> Map<Seq<char>, (Seq<char>, Seq<char>, u64)> {
    Map::new(|k: Seq<char>| m.lookup(k) is Some, |k: Seq<char>| entry_view(m.lookup(k)->Some_0))
}

/// A key is served virtually when it contains one of the patterns.
pub open spec fn virtual_key(patterns: Seq<String>, key: Seq<char>) -> bool {
    exists|i: int| 0 <= i < patterns.len() && contains_seq(key, #[trigger] patterns[i]@)
}

/// What a reservation of a key and version comes to.
#[derive(Debug, Clone, Copy, PartialEq, Eq, Structural)]
pub enum ReserveDecision {
    Virtual,
    Conflict,
    Fresh,
}

/// The path under which the server hands out a stored cache's archive.
pub open spec fn archive_url(base: Seq<char>, id: nat) -> Seq<char> {
    base + "/_apis/artifactcache/artifacts/"@ + decimal(id)
}

/// The keys of a lookup: the comma-separated pieces of its `keys` parameter, trimmed, without
/// empty ones.
pub open spec fn lookup_keys(ps: Seq<Seq<char>>) -> Seq<Seq<char>>
    decreases ps.len(),
{
    if ps.len() == 0 {
        Seq::empty()
    } else if trim(ps.last()).len() == 0 {
        lookup_keys(ps.drop_last())
    } else {
        lookup_keys(ps.drop_last()).push(trim(ps.last()))
    }
}

/// A lookup over the keys in order: a virtual key is a hit on the empty archive; a stored cache
/// of the same version is a hit when its archive file is present (or its location names no id),
/// and is dropped when its file is gone; the first hit wins. Gives the hit (location and key) and
/// the caches afterwards.
pub open spec fn lookup_spec(ks: Seq<Seq<char>>, m: Map<Seq<char>, (Seq<char>, Seq<char>, u64)>, version: Seq<char>,
    base: Seq<char>, present: Seq<u64>, patterns: Seq<String>) -> (Option<(Seq<char>, Seq<char>)>, Map<Seq<char>, (Seq<char>, Seq<char>, u64)>)
    decreases ks.len(),
{
    if ks.len() == 0 {
        (None, m)
    } else {
        let k = ks[0];
        if virtual_key(patterns, k) {
            (Some((archive_url(base, 0), k)), m)
        } else if m.contains_key(k) && m[k].0 == version {
            match cache_id_spec(m[k].1) {
                Some(id) => if present.contains(id as u64) {
                    (Some((if id == 0 { m[k].1 } else { archive_url(base, id) }, k)), m)
                } else {
                    lookup_spec(ks.drop_first(), m.remove(k), version, base, present, patterns)
                },
                None => (Some((m[k].1, k)), m),
            }
        } else {
            lookup_spec(ks.drop_first(), m, version, base, present, patterns)
        }
    }
}

/// The outcome of a lookup: the hit's archive location and key, and whether stale caches were
/// dropped.
#[derive(Debug, Clone, PartialEq, Eq)]
pub struct CacheLookup {
    pub hit: Option<(String, String)>,
    pub pruned: bool,
}

/// The keys a `keys` parameter names, none without one.
pub open spec fn query_keys(p: Option<Seq<char>>) -> Seq<Seq<char>> {
    match p {
        Some(t) => lookup_keys(split_char(t, ',')),
        None => Seq::empty(),
    }
}

/// A lookup hit as texts.
pub open spec fn hit_view(h: Option<(String, String)>) -> Option<(Seq<char>, Seq<char>)> {
    match h {
        Some((a, b)) => Some((a@, b@)),
        None => None,
    }
}

fn keys_of(p: &str) -> (r: Vec<String>)
    ensures
        views(r@) == lookup_keys(split_char(p@, ',')),
{
    let parts = split_on_char(p, ',');
    let ghost ps = views(parts@);
    let mut r: Vec<String> = Vec::new();
    let mut i: usize = 0;
    assert(ps.take(0) =~= Seq::<Seq<char>>::empty());
    assert(views(r@) =~= Seq::<Seq<char>>::empty());
    while i < parts.len()
        invariant
            i <= parts.len(),
            ps == views(parts@),
            views(r@) == lookup_keys(ps.take(i as int)),
        decreases parts.len() - i,
    {
        let ghost t = ps.take(i + 1);
        assert(t.drop_last() =~= ps.take(i as int));
        assert(t.last() == parts@[i as int]@);
        let key = trim_str(parts[i].as_str());
        if key.as_str().unicode_len() > 0 {
            let ghost before = views(r@);
            r.push(key);
            assert(views(r@) =~= before.push(r@.last()@));
        }
        i += 1;
    }
    assert(ps.take(parts.len() as int) =~= ps);
    r
}

fn contains_id(v: &Vec<u64>, id: u64) -> (r: bool)
    ensures
        r == v@.contains(id),
{
    let mut i: usize = 0;
    while i < v.len()
        invariant
            i <= v.len(),
            forall|j: int| 0 <= j < i ==> v@[j] != id,
        decreases v.len() - i,
    {
        if v[i] == id {
            assert(v@[i as int] == id);
            return true;
        }
        i += 1;
    }
    false
}

/// A character that occurs in a text has a first occurrence.
pub proof fn lemma_first_index_exists(s: Seq<char>, c: char, j: int)
    requires
        0 <= j < s.len(),
        s[j] == c,
    ensures
        exists|i: int| first_index_of(s, c, i),
    decreases j,
{
    if exists|k: int| 0 <= k < j && s[k] == c {
        let k = choose|k: int| 0 <= k < j && s[k] == c;
        lemma_first_index_exists(s, c, k);
    } else {
        assert(first_index_of(s, c, j));
    }
}

/// The last `/`-separated piece of a text ending in `/` and a piece without `/` is that piece.
pub proof fn lemma_split_last_piece(a: Seq<char>, b: Seq<char>, c: char)
    requires
        !b.contains(c),
    ensures
        split_char(a + seq![c] + b, c).len() > 0,
        split_char(a + seq![c] + b, c).last() == b,
    decreases a.len(),
{
    let s = a + seq![c] + b;
    assert(s[a.len() as int] == c);
    lemma_first_index_exists(s, c, a.len() as int);
    let i = choose|i: int| first_index_of(s, c, i);
    assert(i <= a.len()) by {
        if i > a.len() {
            assert(s[a.len() as int] == c);
        }
    }
    lemma_split_char_nonempty(s.skip(i + 1), c);
    if i == a.len() {
        assert(s.skip(i + 1) =~= b);
        assert(!exists|x: int| first_index_of(b, c, x)) by {
            if exists|x: int| first_index_of(b, c, x) {
                let x = choose|x: int| first_index_of(b, c, x);
                assert(b.contains(c));
            }
        }
        assert(split_char(b, c) == seq![b]);
    } else {
        let a2 = a.skip(i + 1);
        assert(s.skip(i + 1) =~= a2 + seq![c] + b);
        lemma_split_last_piece(a2, b, c);
    }
    assert(split_char(s, c) == seq![s.take(i)] + split_char(s.skip(i + 1), c));
}

impl CacheRegistry {
    pub closed spec fn pending_view(&self) -> Seq<(u64, PendingCache)> {
        self.pending@
    }

    pub closed spec fn patterns_view(&self) -> Seq<String> {
        self.virtual_patterns@
    }

    /// The stored caches.
    pub closed spec fn stored(&self) -> StrMap<CacheEntry> {
        self.caches
    }

    pub closed spec fn wf(&self) -> bool {
        self.caches.wf()
    }

    /// The stored caches.
    pub fn caches(&self) -> (r: &StrMap<CacheEntry>)
        requires
            self.wf(),
        ensures
            *r == self.stored(),
            r.wf(),
    {
        &self.caches
    }

    /// A registry holding the given caches, with no uploads and no virtual patterns.
    pub fn new(caches: StrMap<CacheEntry>) -> (r: Self)
        requires
            caches.wf(),
        ensures
            r.wf(),
            r.stored() == caches,
            r.pending_view().len() == 0,
            r.patterns_view().len() == 0,
    {
        CacheRegistry { caches, pending: Vec::new(), virtual_patterns: Vec::new() }
    }

    /// Serves keys containing `pattern` virtually from now on.
    pub fn add_virtual_pattern(&mut self, pattern: String)
        ensures
            final(self).stored() == old(self).stored(),
            final(self).pending_view() == old(self).pending_view(),
            final(self).patterns_view() == old(self).patterns_view().push(pattern),
    {
        self.virtual_patterns.push(pattern);
    }

    /// Whether a key is served virtually.
    pub fn is_virtual_cache_key(&self, key: &str) -> (r: bool)
        ensures
            r == virtual_key(self.patterns_view(), key@),
    {
        let mut i: usize = 0;
        while i < self.virtual_patterns.len()
            invariant
                i <= self.virtual_patterns@.len(),
                forall|j: int| 0 <= j < i ==> !contains_seq(key@, #[trigger] self.virtual_patterns@[j]@),
            decreases self.virtual_patterns.len() - i,
        {
            if contains(key, self.virtual_patterns[i].as_str()) {
                return true;
            }
            i += 1;
        }
        false
    }

    /// What reserving a key and version comes to: virtual for a virtual key, a conflict when a
    /// cache of that version is stored, else a fresh upload.
    pub fn reserve_decision(&self, key: &str, version: &str) -> (r: ReserveDecision)
        requires
            self.wf(),
        ensures
            r == if virtual_key(self.patterns_view(), key@) {
                ReserveDecision::Virtual
            } else if cache_map(self.stored()).contains_key(key@) && cache_map(self.stored())[key@].0 == version@ {
                ReserveDecision::Conflict
            } else {
                ReserveDecision::Fresh
            },
    {
        if self.is_virtual_cache_key(key) {
            return ReserveDecision::Virtual;
        }
        match self.caches.get(key) {
            Some(e) => if crate::text::str_eq(e.version.as_str(), version) {
                ReserveDecision::Conflict
            } else {
                ReserveDecision::Fresh
            },
            None => ReserveDecision::Fresh,
        }
    }

    /// Records an upload in progress under an id.
    pub fn add_pending(&mut self, id: u64, pending: PendingCache)
        ensures
            final(self).stored() == old(self).stored(),
            final(self).patterns_view() == old(self).patterns_view(),
            final(self).pending_view() == old(self).pending_view().push((id, pending)),
    {
        self.pending.push((id, pending));
    }

    /// The upload in progress under an id.
    pub fn pending(&self, id: u64) -> (r: Option<&PendingCache>)
        ensures
            match r {
                Some(p) => pending_lookup(self.pending_view(), id) == Some(*p),
                None => pending_lookup(self.pending_view(), id) is None,
            },
    {
        let mut i = self.pending.len();
        assert(self.pending@.take(i as int) =~= self.pending@);
        while i > 0
            invariant
                i <= self.pending@.len(),
                pending_lookup(self.pending@, id) == pending_lookup(self.pending@.take(i as int), id),
            decreases i,
        {
            assert(self.pending@.take(i as int).drop_last() =~= self.pending@.take(i - 1));
            if self.pending[i - 1].0 == id {
                return Some(&self.pending[i - 1].1);
            }
            i -= 1;
        }
        None
    }

    /// Takes the upload in progress under an id: afterwards no upload is recorded under it.
    pub fn take_pending(&mut self, id: u64) -> (r: Option<PendingCache>)
        ensures
            r == pending_lookup(old(self).pending_view(), id),
            pending_lookup(final(self).pending_view(), id) is None,
            forall|q: u64| q != id ==> #[trigger] pending_lookup(final(self).pending_view(), q)
                == pending_lookup(old(self).pending_view(), q),
            final(self).stored() == old(self).stored(),
            final(self).patterns_view() == old(self).patterns_view(),
    {
        let ghost all = self.pending@;
        let mut rest: Vec<(u64, PendingCache)> = Vec::new();
        std::mem::swap(&mut rest, &mut self.pending);
        let mut kept: Vec<(u64, PendingCache)> = Vec::new();
        let mut found: Option<PendingCache> = None;
        let ghost mut suffix: Seq<(u64, PendingCache)> = Seq::empty();
        assert(rest@ + suffix =~= all);
        while rest.len() > 0
            invariant
                rest@ + suffix == all,
                found == pending_lookup(suffix, id),
                pending_lookup(kept@, id) is None,
                forall|q: u64| q != id ==> #[trigger] pending_lookup(kept@, q) == pending_lookup(suffix, q),
            decreases rest.len(),
        {
            let ghost r0 = rest@;
            let item = rest.pop().unwrap();
            proof {
                assert(r0 == rest@.push(item));
                assert(seq![item].last() == item);
                assert(seq![item].drop_last() =~= Seq::<(u64, PendingCache)>::empty());
                lemma_pending_concat(seq![item], suffix, id);
                lemma_pending_single(item, id);
                assert forall|q: u64| q != id implies #[trigger] pending_lookup(seq![item] + suffix, q) == (
                    match pending_lookup(suffix, q) {
                        Some(x) => Some(x),
                        None => if item.0 == q { Some(item.1) } else { None },
                    }) by {
                    lemma_pending_concat(seq![item], suffix, q);
                    lemma_pending_single(item, q);
                }
                assert(rest@ + (seq![item] + suffix) =~= all);
            }
            if item.0 == id {
                if found.is_none() {
                    found = Some(item.1);
                }
            } else {
                let ghost k0 = kept@;
                kept.insert(0, item);
                proof {
                    assert(kept@ =~= seq![item] + k0);
                    lemma_pending_concat(seq![item], k0, id);
                    assert forall|q: u64| q != id implies #[trigger] pending_lookup(kept@, q) == pending_lookup(seq![item] + suffix, q) by {
                        lemma_pending_concat(seq![item], k0, q);
                        lemma_pending_concat(seq![item], suffix, q);
                        lemma_pending_single(item, q);
                    }
                    lemma_pending_single(item, id);
                }
            }
            proof {
                suffix = seq![item] + suffix;
            }
        }
        assert(suffix =~= all);
        self.pending = kept;
        found
    }

    /// Looks the keys of a `keys` parameter up for a version, given the ids of the archive files
    /// present, dropping stored caches whose file is gone.
    pub fn lookup(&mut self, keys_param: Option<&str>, version: &str, base_url: &str, present: &Vec<u64>) -> (r: CacheLookup)
        requires
            old(self).wf(),
        ensures
            final(self).wf(),
            final(self).pending_view() == old(self).pending_view(),
            final(self).patterns_view() == old(self).patterns_view(),
            ({
                let (hit, after) = lookup_spec(query_keys(match keys_param {
                    Some(p) => Some(p@),
                    None => None,
                }), cache_map(old(self).stored()), version@, base_url@, present@, old(self).patterns_view());
                &&& hit_view(r.hit) == hit
                &&& cache_map(final(self).stored()) == after
                &&& r.pruned == (after != cache_map(old(self).stored()))
            }),
    {
        let ks: Vec<String> = match keys_param {
            Some(p) => keys_of(p),
            None => {
                let v: Vec<String> = Vec::new();
                assert(views(v@) =~= Seq::<Seq<char>>::empty());
                v
            },
        };
        let ghost kv = views(ks@);
        let ghost m0 = cache_map(self.caches);
        let ghost pv = self.pending@;
        let ghost pats = self.virtual_patterns@;
        let mut pruned = false;
        let mut i: usize = 0;
        assert(kv.skip(0) =~= kv);
        while i < ks.len()
            invariant
                i <= ks@.len(),
                kv == views(ks@),
                self.caches.wf(),
                self.pending@ == pv,
                self.virtual_patterns@ == pats,
                pv == old(self).pending@,
                pats == old(self).virtual_patterns@,
                m0 == cache_map(old(self).caches),
                kv == query_keys(match keys_param {
                    Some(p) => Some(p@),
                    None => None,
                }),
                lookup_spec(kv, m0, version@, base_url@, present@, pats)
                    == lookup_spec(kv.skip(i as int), cache_map(self.caches), version@, base_url@, present@, pats),
                forall|k: Seq<char>| #[trigger] cache_map(self.caches).contains_key(k) ==> m0.contains_key(k)
                    && cache_map(self.caches)[k] == m0[k],
                pruned == (cache_map(self.caches) != m0),
            decreases ks.len() - i,
        {
            let ghost rest = kv.skip(i as int);
            assert(rest[0] == ks@[i as int]@);
            assert(rest.drop_first() =~= kv.skip(i + 1));
            let k = &ks[i];
            if self.is_virtual_cache_key(k.as_str()) {
                let loc = cat(base_url, "/_apis/artifactcache/artifacts/0");
                proof {
                    reveal_strlit("/_apis/artifactcache/artifacts/0");
                    reveal_strlit("/_apis/artifactcache/artifacts/");
                    lemma_decimal_reads_back(0);
                    assert(decimal(0) =~= seq!['0']);
                    assert("/_apis/artifactcache/artifacts/0"@ =~= "/_apis/artifactcache/artifacts/"@ + decimal(0));
                    assert(loc@ =~= archive_url(base_url@, 0));
                    assert(virtual_key(pats, rest[0]));
                    assert(lookup_spec(rest, cache_map(self.caches), version@, base_url@, present@, pats)
                        == (Some((archive_url(base_url@, 0), k@)), cache_map(self.caches)));
                }
                let kc = k.clone();
                assert(kc@ == k@);
                return CacheLookup { hit: Some((loc, kc)), pruned };
            }
            let mut stale = false;
            let mut found: Option<String> = None;
            match self.caches.get(k.as_str()) {
                Some(e) => {
                    if crate::text::str_eq(e.version.as_str(), version) {
                        match cache_id_from_archive_location(e.archive_location.as_str()) {
                            Some(id) => {
                                if contains_id(present, id) {
                                    if id == 0 {
                                        found = Some(e.archive_location.clone());
                                    } else {
                                        let digits = u64_to_string(id);
                                        let head = cat(base_url, "/_apis/artifactcache/artifacts/");
                                        found = Some(cat(head.as_str(), digits.as_str()));
                                    }
                                } else {
                                    stale = true;
                                }
                            },
                            None => {
                                found = Some(e.archive_location.clone());
                            },
                        }
                    }
                },
                None => {},
            }
            if let Some(loc) = found {
                let kc = k.clone();
                assert(kc@ == k@);
                return CacheLookup { hit: Some((loc, kc)), pruned };
            }
            if stale {
                let ghost before = cache_map(self.caches);
                self.caches.remove(k.as_str());
                assert(cache_map(self.caches) =~= before.remove(k@));
                assert(!cache_map(self.caches).contains_key(k@));
                assert(m0.contains_key(k@));
                pruned = true;
            }
            i += 1;
        }
        CacheLookup { hit: None, pruned }
    }

    /// Stores a committed cache under its key, replacing any earlier one.
    pub fn record_commit(&mut self, key: String, entry: CacheEntry)
        requires
            old(self).wf(),
        ensures
            final(self).wf(),
            cache_map(final(self).stored()) == cache_map(old(self).stored()).insert(key@, entry_view(entry)),
            final(self).pending_view() == old(self).pending_view(),
            final(self).patterns_view() == old(self).patterns_view(),
    {
        let ghost k = key@;
        let ghost ev = entry_view(entry);
        self.caches.insert(key, entry);
        assert(cache_map(self.stored()) =~= cache_map(old(self).caches).insert(k, ev));
    }
}

/// Looking up in a single upload.
pub proof fn lemma_pending_single(item: (u64, PendingCache), id: u64)
    ensures
        pending_lookup(seq![item], id) == if item.0 == id { Some(item.1) } else { None::<PendingCache> },
{
    assert(seq![item].last() == item);
    assert(seq![item].drop_last() =~= Seq::<(u64, PendingCache)>::empty());
    assert(pending_lookup(Seq::<(u64, PendingCache)>::empty(), id) is None);
}

/// Looking up in uploads recorded one after another: the later ones first.
pub proof fn lemma_pending_concat(a: Seq<(u64, PendingCache)>, b: Seq<(u64, PendingCache)>, id: u64)
    ensures
        pending_lookup(a + b, id) == match pending_lookup(b, id) {
            Some(x) => Some(x),
            None => pending_lookup(a, id),
        },
    decreases b.len(),
{
    if b.len() > 0 {
        assert((a + b).drop_last() =~= a + b.drop_last());
        assert((a + b).last() == b.last());
        lemma_pending_concat(a, b.drop_last(), id);
    } else {
        assert(a + b =~= a);
    }
}

/// The location the server hands out for a cache id names that id.
pub proof fn lemma_archive_url_names_id(base: Seq<char>, id: u64)
    ensures
        cache_id_spec(archive_url(base, id as nat)) == Some(id as nat),
{
    let d = decimal(id as nat);
    lemma_decimal_reads_back(id as nat);
    let loc = archive_url(base, id as nat);
    reveal_strlit("/_apis/artifactcache/artifacts/");
    reveal_strlit("/_apis/artifactcache/artifacts");
    reveal_strlit("/");
    assert(loc.last() == d.last());
    assert(crate::text::is_ascii_digit(d[d.len() - 1]));
    assert(!is_suffix("/"@, loc)) by {
        if is_suffix("/"@, loc) {
            assert(loc.subrange(loc.len() - 1, loc.len() as int)[0] == loc.last());
        }
    }
    assert(trim_end_matches(loc, "/"@) == loc);
    assert(!d.contains('/')) by {
        if d.contains('/') {
            let j = choose|j: int| 0 <= j < d.len() && d[j] == '/';
            assert(crate::text::is_ascii_digit(d[j]));
        }
    }
    let head = base + "/_apis/artifactcache/artifacts"@;
    assert(loc =~= head + seq!['/'] + d);
    lemma_split_last_piece(head, d, '/');
}

/// A committed cache is found again: once a cache of some version is stored under a key that is
/// not served virtually, at the location the server hands out for its id, a lookup of that key
/// for the same version, while the id's archive file is present, is a hit at that location.
pub proof fn lemma_cache_round_trip(m: Map<Seq<char>, (Seq<char>, Seq<char>, u64)>, key: Seq<char>, version: Seq<char>,
    base: Seq<char>, id: u64, size: u64, present: Seq<u64>, patterns: Seq<String>)
    requires
        !virtual_key(patterns, key),
        present.contains(id),
    ensures
        lookup_spec(seq![key], m.insert(key, (version, archive_url(base, id as nat), size)), version, base, present,
            patterns).0 == Some((archive_url(base, id as nat), key)),
{
    lemma_archive_url_names_id(base, id);
    let m2 = m.insert(key, (version, archive_url(base, id as nat), size));
    assert(seq![key][0] == key);
    assert(m2.contains_key(key) && m2[key].0 == version);
    if id == 0 {
        assert(archive_url(base, id as nat) == archive_url(base, 0));
    }
}

/// An upload recorded under an id is the one taken back under it.
pub proof fn lemma_pending_round_trip(s: Seq<(u64, PendingCache)>, id: u64, p: PendingCache)
    ensures
        pending_lookup(s.push((id, p)), id) == Some(p),
{
    assert(s.push((id, p)).last() == (id, p));
}

} // verus!
