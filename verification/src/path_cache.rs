use vstd::prelude::*;
use std::collections::HashMap;
use crate::level_gen::{seed_of_wave, wave_seed};

verus! {

broadcast use vstd::std_specs::hash::group_hash_axioms;

/// What the cache holds: entries by seed, seeds from least to most recently
/// used, and the capacity.
pub struct CacheView<V> {
    pub entries: Map<u64, V>,
    pub order: Seq<u64>,
    pub max_entries: usize,
}

/// Generated maps by seed, evicting the least recently used entry when full.
pub struct PathCache<V> {
    cache: HashMap<u64, V>,
    max_entries: usize,
    access_order: Vec<u64>,
}

impl<V> View for PathCache<V> {
    type V = CacheView<V>;

    closed spec fn view(&self) -> CacheView<V> {
        CacheView { entries: self.cache@, order: self.access_order@, max_entries: self.max_entries }
    }
}

/// The cache's invariant: the recency order lists each cached seed once.
pub open spec fn cache_wf<V>(c: CacheView<V>) -> bool {
    &&& c.order.no_duplicates()
    &&& c.entries.dom().finite()
    &&& forall|s: u64| #[trigger] c.entries.contains_key(s) <==> c.order.contains(s)
    &&& c.entries.len() == c.order.len()
}

/// `order` without `seed`.
pub open spec fn without_seed(order: Seq<u64>, seed: u64) -> Seq<u64> {
    order.filter(|s: u64| s != seed)
}

/// `order` with `seed` moved (or added) to the most recent end.
pub open spec fn touched(order: Seq<u64>, seed: u64) -> Seq<u64> {
    without_seed(order, seed).push(seed)
}

/// The cache after storing `value` under `seed`: when it is full and `seed`
/// is new, the least recently used entry goes first; `seed` becomes the most
/// recently used.
pub open spec fn inserted<V>(c: CacheView<V>, seed: u64, value: V) -> CacheView<V> {
    if c.entries.len() >= c.max_entries && !c.entries.contains_key(seed) && c.order.len() > 0 {
        let oldest = c.order[0];
        CacheView {
            entries: c.entries.remove(oldest).insert(seed, value),
            order: touched(without_seed(c.order, oldest), seed),
            max_entries: c.max_entries,
        }
    } else {
        CacheView { entries: c.entries.insert(seed, value), order: touched(c.order, seed), max_entries: c.max_entries }
    }
}

/// One step of pre-generation: a seed already cached is left alone, a
/// missing one is stored with `value`.
pub open spec fn pregenerated_step<V>(c: CacheView<V>, seed: u64, value: V) -> CacheView<V> {
    if c.entries.contains_key(seed) { c } else { inserted(c, seed, value) }
}

/// The cache after pre-generating the first `k` waves from `start_wave`,
/// the `i`-th with `values[i]` should it be missing.
pub open spec fn pregenerated<V>(c: CacheView<V>, start_wave: int, k: int, values: Seq<V>) -> CacheView<V>
    decreases k,
{
    if k <= 0 {
        c
    } else {
        pregenerated_step(
            pregenerated(c, start_wave, k - 1, values),
            seed_of_wave(start_wave + k - 1) as u64,
            values[k - 1],
        )
    }
}

proof fn lemma_without_seed(order: Seq<u64>, seed: u64)
    requires
        order.no_duplicates(),
    ensures
        without_seed(order, seed).no_duplicates(),
        forall|s: u64| #[trigger] without_seed(order, seed).contains(s) <==> order.contains(s) && s != seed,
        order.contains(seed) ==> without_seed(order, seed).len() == order.len() - 1,
        !order.contains(seed) ==> without_seed(order, seed) == order,
    decreases order.len(),
{
    reveal(Seq::filter);
    if order.len() > 0 {
        let t = order.drop_last();
        assert(t.no_duplicates()) by {
            assert forall|i: int, j: int| 0 <= i < t.len() && 0 <= j < t.len() && i != j implies t[i] != t[j] by {
                assert(t[i] == order[i] && t[j] == order[j]);
            }
        }
        lemma_without_seed(t, seed);
        let rest = without_seed(t, seed);
        let last = order.last();
        assert(without_seed(order, seed) == if last != seed { rest.push(last) } else { rest });
        assert(!t.contains(last)) by {
            if t.contains(last) {
                let k = choose|k: int| 0 <= k < t.len() && t[k] == last;
                assert(order[k] == order[order.len() - 1]);
            }
        }
        assert forall|s: u64| order.contains(s) <==> t.contains(s) || s == last by {
            if order.contains(s) {
                let k = choose|k: int| 0 <= k < order.len() && order[k] == s;
                if k < t.len() {
                    assert(t[k] == s);
                }
            }
            if t.contains(s) {
                let k = choose|k: int| 0 <= k < t.len() && t[k] == s;
                assert(order[k] == s);
            }
            if s == last {
                assert(order[order.len() - 1] == s);
            }
        }
        if last != seed {
            let res = rest.push(last);
            assert forall|s: u64| #[trigger] res.contains(s) <==> rest.contains(s) || s == last by {
                if res.contains(s) {
                    let k = choose|k: int| 0 <= k < res.len() && res[k] == s;
                    if k < rest.len() {
                        assert(rest[k] == s);
                    }
                }
                if rest.contains(s) {
                    let k = choose|k: int| 0 <= k < rest.len() && rest[k] == s;
                    assert(res[k] == s);
                }
                if s == last {
                    assert(res[rest.len() as int] == s);
                }
            }
            assert forall|i: int, j: int| 0 <= i < res.len() && 0 <= j < res.len() && i != j implies res[i] != res[j] by {
                if i < rest.len() && j < rest.len() {
                } else if i < rest.len() {
                    assert(rest.contains(res[i]));
                } else {
                    assert(rest.contains(res[j]));
                }
            }
            if !order.contains(seed) {
                assert(res =~= t.push(last));
                assert(t.push(last) =~= order);
            }
        } else {
            assert(order.contains(seed)) by {
                assert(order[order.len() - 1] == seed);
            }
        }
    } else {
        assert(without_seed(order, seed) =~= order);
    }
}

proof fn lemma_touched(order: Seq<u64>, seed: u64)
    requires
        order.no_duplicates(),
    ensures
        touched(order, seed).no_duplicates(),
        forall|s: u64| #[trigger] touched(order, seed).contains(s) <==> order.contains(s) || s == seed,
        touched(order, seed).last() == seed,
        touched(order, seed).len() == if order.contains(seed) { order.len() } else { order.len() + 1 },
{
    lemma_without_seed(order, seed);
    let w = without_seed(order, seed);
    let t = w.push(seed);
    assert forall|s: u64| #[trigger] t.contains(s) <==> w.contains(s) || s == seed by {
        if t.contains(s) {
            let k = choose|k: int| 0 <= k < t.len() && t[k] == s;
            if k < w.len() {
                assert(w[k] == s);
            }
        }
        if w.contains(s) {
            let k = choose|k: int| 0 <= k < w.len() && w[k] == s;
            assert(t[k] == s);
        }
        if s == seed {
            assert(t[w.len() as int] == s);
        }
    }
    assert forall|i: int, j: int| 0 <= i < t.len() && 0 <= j < t.len() && i != j implies t[i] != t[j] by {
        if i < w.len() && j < w.len() {
        } else if i < w.len() {
            assert(w.contains(t[i]));
        } else {
            assert(w.contains(t[j]));
        }
    }
}

impl<V> PathCache<V> {
    /// An empty cache holding up to `max_entries` entries.
    pub fn new(max_entries: usize) -> (r: Self)
        ensures
            r@.entries == Map::<u64, V>::empty(),
            r@.order == Seq::<u64>::empty(),
            r@.max_entries == max_entries,
            cache_wf(r@),
    {
        let r = PathCache { cache: HashMap::new(), max_entries, access_order: Vec::new() };
        assert(r@.entries.len() == 0);
        r
    }

    /// Whether `seed` is cached.
    pub fn contains(&self, seed: u64) -> (r: bool)
        ensures
            r == self@.entries.contains_key(seed),
    {
        self.cache.contains_key(&seed)
    }

    /// Number of cached entries.
    pub fn len(&self) -> (r: usize)
        ensures
            r == self@.entries.len(),
    {
        self.cache.len()
    }

    /// Moves `seed` to the most recent end of the recency order.
    fn update_access_order(&mut self, seed: u64)
        ensures
            final(self)@ == (CacheView { order: touched(old(self)@.order, seed), ..old(self)@ }),
    {
        let ghost old_order = self.access_order@;
        let mut kept: Vec<u64> = Vec::new();
        let mut i: usize = 0;
        while i < self.access_order.len()
            invariant
                i <= self.access_order.len(),
                self.access_order@ == old_order,
                kept@ == without_seed(old_order.take(i as int), seed),
            decreases self.access_order.len() - i,
        {
            proof {
                reveal(Seq::filter);
                assert(old_order.take(i + 1).drop_last() =~= old_order.take(i as int));
            }
            let s = self.access_order[i];
            if s != seed {
                kept.push(s);
            }
            i += 1;
        }
        assert(old_order.take(self.access_order.len() as int) =~= old_order);
        kept.push(seed);
        self.access_order = kept;
    }

    /// The cached value for `seed`, now the most recently used; `None`
    /// (and no change) when `seed` is not cached.
    pub fn get_cached(&mut self, seed: u64) -> (r: Option<V>)
        where
            V: Clone,
        ensures
            old(self)@.entries.contains_key(seed) ==> r is Some && cloned(old(self)@.entries[seed], r->0)
                && final(self)@ == (CacheView { order: touched(old(self)@.order, seed), ..old(self)@ }),
            !old(self)@.entries.contains_key(seed) ==> r is None && final(self)@ == old(self)@,
    {
        match self.cache.get(&seed) {
            Option::Some(v) => {
                let value = v.clone();
                self.update_access_order(seed);
                Option::Some(value)
            },
            Option::None => Option::None,
        }
    }

    /// Stores `value` under `seed`, evicting the least recently used entry
    /// when the cache is full and `seed` is new.
    pub fn insert_with_eviction(&mut self, seed: u64, value: V)
        requires
            cache_wf(old(self)@),
        ensures
            cache_wf(final(self)@),
            final(self)@ == inserted(old(self)@, seed, value),
    {
        let ghost c0 = self@;
        if self.cache.len() >= self.max_entries && !self.cache.contains_key(&seed) {
            if self.access_order.len() > 0 {
                let oldest = self.access_order[0];
                self.cache.remove(&oldest);
                self.remove_from_order(oldest);
            }
        }
        let ghost c1 = self@;
        self.cache.insert(seed, value);
        self.update_access_order(seed);
        proof {
            lemma_inserted_wf(c0, seed, value);
        }
    }

    fn remove_from_order(&mut self, seed: u64)
        ensures
            final(self)@ == (CacheView { order: without_seed(old(self)@.order, seed), ..old(self)@ }),
    {
        let ghost old_order = self.access_order@;
        let mut kept: Vec<u64> = Vec::new();
        let mut i: usize = 0;
        while i < self.access_order.len()
            invariant
                i <= self.access_order.len(),
                self.access_order@ == old_order,
                kept@ == without_seed(old_order.take(i as int), seed),
            decreases self.access_order.len() - i,
        {
            proof {
                reveal(Seq::filter);
                assert(old_order.take(i + 1).drop_last() =~= old_order.take(i as int));
            }
            let s = self.access_order[i];
            if s != seed {
                kept.push(s);
            }
            i += 1;
        }
        assert(old_order.take(self.access_order.len() as int) =~= old_order);
        self.access_order = kept;
    }

    /// The value for `seed`: the cached one (now the most recently used) or,
    /// on a miss, a fresh one from `generate`, whose copy is then stored as by
    /// `insert_with_eviction`.
    pub fn get_or_generate<F: Fn(u64) -> V>(&mut self, seed: u64, generate: F) -> (r: V)
        where
            V: Clone,
        requires
            cache_wf(old(self)@),
            generate.requires((seed,)),
        ensures
            cache_wf(final(self)@),
            old(self)@.entries.contains_key(seed) ==> cloned(old(self)@.entries[seed], r)
                && final(self)@ == (CacheView { order: touched(old(self)@.order, seed), ..old(self)@ }),
            !old(self)@.entries.contains_key(seed) ==> generate.ensures((seed,), r)
                && exists|stored: V| cloned(r, stored) && final(self)@ == inserted(old(self)@, seed, stored),
    {
        let ghost c0 = self@;
        match self.get_cached(seed) {
            Option::Some(v) => {
                proof {
                    lemma_touched_wf(c0, seed);
                }
                v
            },
            Option::None => {
                let fresh = generate(seed);
                let stored = fresh.clone();
                let ghost kept = stored;
                assert(cloned(fresh, kept));
                self.insert_with_eviction(seed, stored);
                assert(self@ == inserted(c0, seed, kept));
                fresh
            },
        }
    }

    /// Makes sure the maps of waves `start_wave` up to (not including)
    /// `start_wave + count` are cached, generating each missing one with
    /// `generate` from its wave seed, `wave * 12345 + 67890`.
    pub fn pregenerate_paths<F: Fn(u64) -> V>(&mut self, start_wave: u32, count: u32, generate: F)
        requires
            cache_wf(old(self)@),
            start_wave + count <= u32::MAX,
            forall|s: u64| generate.requires((s,)),
        ensures
            cache_wf(final(self)@),
            final(self)@.max_entries == old(self)@.max_entries,
            forall|s: u64| #[trigger] final(self)@.entries.contains_key(s) ==> old(self)@.entries.contains_key(s)
                || exists|w: int| start_wave <= w < start_wave + count && s == #[trigger] seed_of_wave(w),
            count > 0 ==> final(self)@.entries.contains_key(
                seed_of_wave(start_wave + count - 1) as u64,
            ),
            exists|values: Seq<V>| {
                &&& values.len() == count
                &&& final(self)@ == pregenerated(old(self)@, start_wave as int, count as int, values)
                &&& forall|i: int| 0 <= i < count
                    && !(#[trigger] pregenerated(old(self)@, start_wave as int, i, values)).entries.contains_key(
                        seed_of_wave(start_wave + i) as u64,
                    ) ==> generate.ensures((seed_of_wave(start_wave + i) as u64,), values[i])
            },
    {
        let ghost c0 = self@;
        let ghost mut values: Seq<V> = Seq::empty();
        let end = start_wave + count;
        let mut wave = start_wave;
        while wave < end
            invariant
                start_wave <= wave <= end,
                end == start_wave + count,
                cache_wf(self@),
                self@.max_entries == c0.max_entries,
                forall|s: u64| generate.requires((s,)),
                forall|s: u64| #[trigger] self@.entries.contains_key(s) ==> c0.entries.contains_key(s)
                    || exists|w: int| start_wave <= w < wave && s == #[trigger] seed_of_wave(w),
                wave > start_wave ==> self@.entries.contains_key(seed_of_wave(wave - 1) as u64),
                values.len() == wave - start_wave,
                self@ == pregenerated(c0, start_wave as int, wave - start_wave, values),
                forall|i: int| 0 <= i < wave - start_wave
                    && !(#[trigger] pregenerated(c0, start_wave as int, i, values)).entries.contains_key(
                        seed_of_wave(start_wave + i) as u64,
                    ) ==> generate.ensures((seed_of_wave(start_wave + i) as u64,), values[i]),
            decreases end - wave,
        {
            let seed = wave_seed(wave);
            let ghost before = self@;
            let ghost old_values = values;
            let ghost k = wave - start_wave;
            if !self.contains(seed) {
                let fresh = generate(seed);
                proof {
                    values = values.push(fresh);
                }
                self.insert_with_eviction(seed, fresh);
                proof {
                    lemma_inserted_keys(before, seed, fresh);
                }
            } else {
                proof {
                    values = values.push(before.entries[seed]);
                }
            }
            proof {
                lemma_pregenerated_prefix(c0, start_wave as int, k, old_values, values);
                assert(seed == seed_of_wave(start_wave + k) as u64);
                assert(self@ == pregenerated(c0, start_wave as int, k + 1, values));
                assert forall|i: int| 0 <= i < k + 1
                    && !(#[trigger] pregenerated(c0, start_wave as int, i, values)).entries.contains_key(
                        seed_of_wave(start_wave + i) as u64,
                    ) implies generate.ensures((seed_of_wave(start_wave + i) as u64,), values[i]) by {
                    assert(pregenerated(c0, start_wave as int, i, values) == pregenerated(c0, start_wave as int, i, old_values));
                    if i < k {
                        assert(values[i] == old_values[i]);
                    }
                }
            }
            proof {
                assert forall|s: u64| #[trigger] self@.entries.contains_key(s) implies c0.entries.contains_key(s)
                    || exists|w: int| start_wave <= w < wave + 1 && s == #[trigger] seed_of_wave(w) by {
                    if s == seed {
                        assert(start_wave <= wave < wave + 1 && s == seed_of_wave(wave as int));
                    } else {
                        assert(before.entries.contains_key(s));
                    }
                }
            }
            wave += 1;
        }
    }

    /// Empties the cache; the capacity stays.
    pub fn clear(&mut self)
        ensures
            final(self)@.entries == Map::<u64, V>::empty(),
            final(self)@.order == Seq::<u64>::empty(),
            final(self)@.max_entries == old(self)@.max_entries,
            cache_wf(final(self)@),
    {
        self.cache.clear();
        self.access_order.clear();
        assert(self@.entries.len() == 0);
    }

    /// The number of entries and the capacity.
    pub fn stats(&self) -> (r: CacheStats)
        ensures
            r == (CacheStats { entries: self@.entries.len() as usize, capacity: self@.max_entries }),
    {
        CacheStats { entries: self.cache.len(), capacity: self.max_entries }
    }
}

proof fn lemma_inserted_wf<V>(c: CacheView<V>, seed: u64, value: V)
    requires
        cache_wf(c),
    ensures
        cache_wf(inserted(c, seed, value)),
{
    let r = inserted(c, seed, value);
    if c.entries.len() >= c.max_entries && !c.entries.contains_key(seed) && c.order.len() > 0 {
        let oldest = c.order[0];
        assert(c.order.contains(oldest));
        lemma_without_seed(c.order, oldest);
        let w = without_seed(c.order, oldest);
        lemma_touched(w, seed);
        assert(c.entries.contains_key(oldest));
        c.entries.lemma_remove_key_len(oldest);
        let m1 = c.entries.remove(oldest);
        assert(!m1.contains_key(seed));
        assert(m1.dom().finite());
        assert(m1.insert(seed, value).dom() =~= m1.dom().insert(seed));
        assert(!w.contains(seed));
    } else {
        lemma_touched(c.order, seed);
        if c.entries.contains_key(seed) {
            assert(c.entries.insert(seed, value).dom() =~= c.entries.dom());
        } else {
            assert(c.entries.insert(seed, value).dom() =~= c.entries.dom().insert(seed));
        }
    }
}

proof fn lemma_pregenerated_prefix<V>(c: CacheView<V>, start_wave: int, k: int, a: Seq<V>, b: Seq<V>)
    requires
        0 <= k <= a.len(),
        k <= b.len(),
        forall|i: int| 0 <= i < k ==> a[i] == b[i],
    ensures
        forall|j: int| 0 <= j <= k ==> #[trigger] pregenerated(c, start_wave, j, a) == pregenerated(c, start_wave, j, b),
    decreases k,
{
    if k > 0 {
        lemma_pregenerated_prefix(c, start_wave, k - 1, a, b);
        assert(a[k - 1] == b[k - 1]);
        assert(pregenerated(c, start_wave, k - 1, a) == pregenerated(c, start_wave, k - 1, b));
        assert(pregenerated(c, start_wave, k, a) == pregenerated(c, start_wave, k, b));
    }
}

proof fn lemma_touched_wf<V>(c: CacheView<V>, seed: u64)
    requires
        cache_wf(c),
        c.entries.contains_key(seed),
    ensures
        cache_wf(CacheView { order: touched(c.order, seed), ..c }),
{
    lemma_touched(c.order, seed);
}

proof fn lemma_inserted_keys<V>(c: CacheView<V>, seed: u64, value: V)
    requires
        cache_wf(c),
    ensures
        inserted(c, seed, value).entries.contains_key(seed),
        forall|s: u64| #[trigger] inserted(c, seed, value).entries.contains_key(s) ==> s == seed
            || c.entries.contains_key(s),
        inserted(c, seed, value).max_entries == c.max_entries,
{
}

/// What was stored under a seed is what the cache then holds for it, and
/// the seed is the most recently used.
pub proof fn law_cache_read_after_write<V>(c: CacheView<V>, seed: u64, value: V)
    requires
        cache_wf(c),
    ensures
        inserted(c, seed, value).entries.contains_key(seed),
        inserted(c, seed, value).entries[seed] == value,
        inserted(c, seed, value).order.last() == seed,
{
    lemma_inserted_wf(c, seed, value);
}

/// The cache never grows past its capacity (or one entry, for a capacity of
/// zero).
pub proof fn law_cache_stays_within_capacity<V>(c: CacheView<V>, seed: u64, value: V)
    requires
        cache_wf(c),
        c.entries.len() <= if c.max_entries > 0 { c.max_entries as nat } else { 1 },
    ensures
        inserted(c, seed, value).entries.len() <= if c.max_entries > 0 { c.max_entries as nat } else { 1 },
{
    lemma_inserted_wf(c, seed, value);
    if c.entries.len() >= c.max_entries && !c.entries.contains_key(seed) && c.order.len() > 0 {
        let oldest = c.order[0];
        assert(c.order.contains(oldest));
        c.entries.lemma_remove_key_len(oldest);
        let m1 = c.entries.remove(oldest);
        assert(m1.insert(seed, value).dom() =~= m1.dom().insert(seed));
    } else if c.entries.contains_key(seed) {
        assert(c.entries.insert(seed, value).dom() =~= c.entries.dom());
    } else {
        assert(c.entries.insert(seed, value).dom() =~= c.entries.dom().insert(seed));
        if c.order.len() == 0 {
            assert(c.entries.dom() =~= Set::<u64>::empty()) by {
                assert forall|s: u64| !c.entries.dom().contains(s) by {
                    if c.entries.contains_key(s) {
                        assert(c.order.contains(s));
                    }
                }
            }
        }
    }
}

/// A full cache makes room for a new seed by dropping the least recently
/// used entry, and only that one.
pub proof fn law_cache_evicts_least_recently_used<V>(c: CacheView<V>, seed: u64, value: V)
    requires
        cache_wf(c),
        c.entries.len() >= c.max_entries,
        !c.entries.contains_key(seed),
        c.order.len() > 0,
    ensures
        !inserted(c, seed, value).entries.contains_key(c.order[0]),
        forall|s: u64|
            c.entries.contains_key(s) && s != c.order[0] ==> #[trigger] inserted(c, seed, value).entries.contains_key(s)
                && inserted(c, seed, value).entries[s] == c.entries[s],
{
    assert(c.order[0] != seed) by {
        assert(c.order.contains(c.order[0]));
    }
}

/// The number of entries and the capacity of a `PathCache`.
#[derive(Debug, Clone, Copy, PartialEq, Eq, Structural)]
pub struct CacheStats {
    pub entries: usize,
    pub capacity: usize,
}

/// Hits, misses and map generations of the cache.
#[derive(Debug, Clone, Copy, PartialEq, Eq, Structural)]
pub struct CacheMetrics {
    pub hits: u64,
    pub misses: u64,
    pub generations: u64,
}

impl Default for CacheMetrics {
    fn default() -> (r: Self)
        ensures
            r == (CacheMetrics { hits: 0, misses: 0, generations: 0 }),
    {
        CacheMetrics { hits: 0, misses: 0, generations: 0 }
    }
}

impl CacheMetrics {
    pub fn record_hit(&mut self)
        requires
            old(self).hits < u64::MAX,
        ensures
            *final(self) == (CacheMetrics { hits: (old(self).hits + 1) as u64, ..*old(self) }),
    {
        self.hits += 1;
    }

    /// A miss also means one more map generated.
    pub fn record_miss(&mut self)
        requires
            old(self).misses < u64::MAX,
            old(self).generations < u64::MAX,
        ensures
            *final(self) == (CacheMetrics {
                hits: old(self).hits,
                misses: (old(self).misses + 1) as u64,
                generations: (old(self).generations + 1) as u64,
            }),
    {
        self.misses += 1;
        self.generations += 1;
    }
}

/// One use of the cache: a read of `seed` (which refreshes it when it is
/// cached), or a store of a value under `seed`.
pub enum CacheStep<V> {
    Read(u64),
    Store(u64, V),
}

/// The cache after one use.
pub open spec fn after_step<V>(c: CacheView<V>, step: CacheStep<V>) -> CacheView<V> {
    match step {
        CacheStep::Read(seed) => if c.entries.contains_key(seed) {
            CacheView { order: touched(c.order, seed), ..c }
        } else {
            c
        },
        CacheStep::Store(seed, value) => inserted(c, seed, value),
    }
}

/// The cache after each use in turn.
pub open spec fn after_run<V>(c: CacheView<V>, steps: Seq<CacheStep<V>>) -> CacheView<V>
    decreases steps.len(),
{
    if steps.len() == 0 {
        c
    } else {
        after_step(after_run(c, steps.drop_last()), steps.last())
    }
}

/// Over any run of reads and stores the cache stays well formed, keeps its
/// capacity, never holds more entries than that capacity (or one, for a
/// capacity of zero), and a seed that no store touched keeps its value for
/// as long as it stays cached.
pub proof fn law_cache_over_a_run<V>(c: CacheView<V>, steps: Seq<CacheStep<V>>)
    requires
        cache_wf(c),
        c.entries.len() <= if c.max_entries > 0 { c.max_entries as nat } else { 1 },
    ensures
        cache_wf(after_run(c, steps)),
        after_run(c, steps).max_entries == c.max_entries,
        after_run(c, steps).entries.len() <= if c.max_entries > 0 { c.max_entries as nat } else { 1 },
        forall|s: u64|
            #[trigger] after_run(c, steps).entries.contains_key(s) && (forall|i: int|
                0 <= i < steps.len() ==> !(#[trigger] steps[i] matches CacheStep::Store(t, _) && t == s))
                ==> c.entries.contains_key(s) && after_run(c, steps).entries[s] == c.entries[s],
    decreases steps.len(),
{
    if steps.len() > 0 {
        let t = steps.drop_last();
        law_cache_over_a_run(c, t);
        let prev = after_run(c, t);
        match steps.last() {
            CacheStep::Read(seed) => {
                if prev.entries.contains_key(seed) {
                    lemma_touched_wf(prev, seed);
                }
            },
            CacheStep::Store(seed, value) => {
                lemma_inserted_wf(prev, seed, value);
                law_cache_stays_within_capacity(prev, seed, value);
                lemma_inserted_keys(prev, seed, value);
                assert forall|s: u64| #[trigger] inserted(prev, seed, value).entries.contains_key(s) && s != seed
                    implies prev.entries.contains_key(s) && inserted(prev, seed, value).entries[s] == prev.entries[s] by {
                    if prev.entries.len() >= prev.max_entries && !prev.entries.contains_key(seed) && prev.order.len() > 0 {
                        let oldest = prev.order[0];
                        assert(s != oldest);
                    }
                }
            },
        }
        assert forall|s: u64|
            #[trigger] after_run(c, steps).entries.contains_key(s) && (forall|i: int|
                0 <= i < steps.len() ==> !(#[trigger] steps[i] matches CacheStep::Store(t, _) && t == s))
                implies c.entries.contains_key(s) && after_run(c, steps).entries[s] == c.entries[s] by {
            assert forall|i: int| 0 <= i < t.len() implies !(#[trigger] t[i] matches CacheStep::Store(u, _) && u == s) by {
                assert(t[i] == steps[i]);
            }
            assert(!(steps[steps.len() - 1] matches CacheStep::Store(u, _) && u == s));
        }
    }
}

} // verus!
