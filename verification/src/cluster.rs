//! Request clustering: one cached response per cluster key, so equivalent
//! requests are sent once.

use vstd::prelude::*;
use crate::scanner::{cluster_key_of, ScanRequest};
use crate::scanner::response::{HttpResponse, ResponseView};

verus! {

/// Counters of cache use.
#[derive(Debug, Clone, Copy, PartialEq, Eq, Structural)]
pub struct ClusterStats {
    pub total_requests: u64,
    pub cache_hits: u64,
    pub cache_misses: u64,
    pub unique_requests: u64,
}

impl ClusterStats {
    /// All counters zero.
    pub fn zero() -> (s: ClusterStats)
        ensures
            s == (ClusterStats { total_requests: 0, cache_hits: 0, cache_misses: 0, unique_requests: 0 }),
    {
        ClusterStats { total_requests: 0, cache_hits: 0, cache_misses: 0, unique_requests: 0 }
    }
}

impl Default for ClusterStats {
    fn default() -> (s: ClusterStats)
        ensures
            s == (ClusterStats { total_requests: 0, cache_hits: 0, cache_misses: 0, unique_requests: 0 }),
    {
        ClusterStats::zero()
    }
}

/// Index of the entry with key `k`, or `entries.len()` when there is none.
pub open spec fn key_index(entries: Seq<(Seq<char>, ResponseView)>, k: Seq<char>) -> int
    decreases entries.len(),
{
    if entries.len() == 0 {
        0
    } else if entries[0].0 == k {
        0
    } else {
        1 + key_index(entries.drop_first(), k)
    }
}

/// The cached response under key `k`.
pub open spec fn lookup(entries: Seq<(Seq<char>, ResponseView)>, k: Seq<char>) -> Option<ResponseView> {
    let i = key_index(entries, k);
    if 0 <= i < entries.len() {
        Some(entries[i].1)
    } else {
        None
    }
}

/// The entries kept after a store into a cache limited to `max` entries:
/// past the limit, only the newest `max / 2`.
pub open spec fn evicted(entries: Seq<(Seq<char>, ResponseView)>, max: usize) -> Seq<(Seq<char>, ResponseView)> {
    if entries.len() > max {
        entries.skip(entries.len() - max / 2)
    } else {
        entries
    }
}

/// No key occurs twice.
pub open spec fn distinct_keys(entries: Seq<(Seq<char>, ResponseView)>) -> bool {
    forall|i: int, j: int|
        0 <= i < entries.len() && 0 <= j < entries.len() && i != j ==> #[trigger] entries[i].0
            != #[trigger] entries[j].0
}

/// The entries after storing `r` under `k`: an existing entry of `k` is
/// taken out, and `(k, r)` becomes the newest entry.
pub open spec fn store(entries: Seq<(Seq<char>, ResponseView)>, k: Seq<char>, r: ResponseView) -> Seq<(Seq<char>, ResponseView)> {
    let i = key_index(entries, k);
    if 0 <= i < entries.len() {
        entries.remove(i).push((k, r))
    } else {
        entries.push((k, r))
    }
}

pub proof fn lemma_key_index(entries: Seq<(Seq<char>, ResponseView)>, k: Seq<char>)
    ensures
        0 <= key_index(entries, k) <= entries.len(),
        key_index(entries, k) < entries.len() ==> entries[key_index(entries, k)].0 == k,
        forall|j: int| 0 <= j < key_index(entries, k) ==> entries[j].0 != k,
    decreases entries.len(),
{
    if entries.len() > 0 && entries[0].0 != k {
        lemma_key_index(entries.drop_first(), k);
        assert forall|j: int| 0 <= j < key_index(entries, k) implies entries[j].0 != k by {
            if j > 0 {
                assert(entries[j] == entries.drop_first()[j - 1]);
            }
        }
    }
}

/// Cache entries as character sequences and response views.
pub open spec fn entries_of(v: Seq<(String, HttpResponse)>) -> Seq<(Seq<char>, ResponseView)> {
    v.map_values(|e: (String, HttpResponse)| (e.0@, e.1@))
}

/// The abstract state of a `RequestCluster`: the cache entries, least
/// recently stored first, and the counters.
pub struct ClusterView {
    pub entries: Seq<(Seq<char>, ResponseView)>,
    pub stats: ClusterStats,
}

/// A cache of responses keyed by request cluster key, with usage counters.
#[derive(Debug)]
pub struct RequestCluster {
    cache: Vec<(String, HttpResponse)>,
    stats: ClusterStats,
}

impl RequestCluster {
    /// The cache entries as character sequences and response views.
    pub closed spec fn entries(&self) -> Seq<(Seq<char>, ResponseView)> {
        entries_of(self.cache@)
    }

    #[verifier::type_invariant]
    closed spec fn inv(self) -> bool {
        &&& distinct_keys(self.entries())
        &&& self.stats.cache_hits + self.stats.cache_misses == self.stats.total_requests
        &&& self.stats.unique_requests >= self.cache@.len()
    }
}

impl View for RequestCluster {
    type V = ClusterView;

    open spec fn view(&self) -> ClusterView {
        ClusterView { entries: self.entries(), stats: self.stats_spec() }
    }
}

impl RequestCluster {
    pub closed spec fn stats_spec(&self) -> ClusterStats {
        self.stats
    }

    /// An empty cache with zero counters.
    pub fn new() -> (c: Self)
        ensures
            c@.entries.len() == 0,
            c@.stats == ClusterStats::default_spec(),
    {
        let c = RequestCluster { cache: Vec::new(), stats: ClusterStats::zero() };
        assert(c.entries() =~= Seq::<(Seq<char>, ResponseView)>::empty());
        c
    }

    /// Position of `key` in the cache.
    fn position(&self, key: &String) -> (i: usize)
        ensures
            i == key_index(self@.entries, key@),
    {
        let ghost es = self@.entries;
        let mut i: usize = 0;
        assert(es.skip(0) =~= es);
        while i < self.cache.len()
            invariant
                es == self@.entries,
                i <= self.cache@.len(),
                es.len() == self.cache@.len(),
                key_index(es, key@) == i + key_index(es.skip(i as int), key@),
            decreases self.cache@.len() - i,
        {
            assert(es.skip(i as int)[0] == es[i as int]);
            if self.cache[i].0 == *key {
                return i;
            }
            assert(es.skip(i as int).drop_first() =~= es.skip(i + 1));
            i = i + 1;
        }
        i
    }

    /// Whether a response is cached under the request's cluster key.
    pub fn is_cached(&self, request: &ScanRequest) -> (b: bool)
        ensures
            b == lookup(self@.entries, cluster_key_of(request@)) is Some,
    {
        let key = request.cluster_key();
        let i = self.position(&key);
        i < self.cache.len()
    }

    /// The cached response for the request, counting the lookup as a hit
    /// or a miss.
    pub fn get_cached_response(&mut self, request: &ScanRequest) -> (r: Option<HttpResponse>)
        requires
            old(self)@.stats.total_requests < u64::MAX,
        ensures
            final(self)@.entries == old(self)@.entries,
            match lookup(old(self)@.entries, cluster_key_of(request@)) {
                Some(v) => r matches Some(resp) && resp@ == v && final(self)@.stats == (ClusterStats {
                    total_requests: (old(self)@.stats.total_requests + 1) as u64,
                    cache_hits: (old(self)@.stats.cache_hits + 1) as u64,
                    ..old(self)@.stats
                }),
                None => r is None && final(self)@.stats == (ClusterStats {
                    total_requests: (old(self)@.stats.total_requests + 1) as u64,
                    cache_misses: (old(self)@.stats.cache_misses + 1) as u64,
                    ..old(self)@.stats
                }),
            },
    {
        proof {
            use_type_invariant(&*self);
        }
        let key = request.cluster_key();
        let i = self.position(&key);
        if i < self.cache.len() {
            self.stats = ClusterStats {
                total_requests: self.stats.total_requests + 1,
                cache_hits: self.stats.cache_hits + 1,
                ..self.stats
            };
            Some(self.cache[i].1.clone())
        } else {
            self.stats = ClusterStats {
                total_requests: self.stats.total_requests + 1,
                cache_misses: self.stats.cache_misses + 1,
                ..self.stats
            };
            None
        }
    }

    /// Stores a response under the request's cluster key, counting a key
    /// not seen in the cache before as a unique request.
    pub fn cache_response(&mut self, request: &ScanRequest, response: HttpResponse)
        requires
            old(self)@.stats.unique_requests < u64::MAX,
        ensures
            final(self)@.entries == store(old(self)@.entries, cluster_key_of(request@), response@),
            distinct_keys(final(self)@.entries),
            final(self)@.stats == (ClusterStats {
                unique_requests: if lookup(old(self)@.entries, cluster_key_of(request@)) is Some {
                    old(self)@.stats.unique_requests
                } else {
                    (old(self)@.stats.unique_requests + 1) as u64
                },
                ..old(self)@.stats
            }),
    {
        proof {
            use_type_invariant(&*self);
        }
        let key = request.cluster_key();
        let i = self.position(&key);
        let ghost es = self@.entries;
        proof {
            lemma_key_index(es, key@);
        }
        let ghost k2 = (key@, response@);
        let mut cache: Vec<(String, HttpResponse)> = Vec::new();
        std::mem::swap(&mut cache, &mut self.cache);
        assert(entries_of(cache@) == es);
        if i < cache.len() {
            let _ = cache.remove(i);
            cache.push((key, response));
            assert(entries_of(cache@) =~= es.remove(i as int).push(k2));
            proof {
                law_store_keeps_keys_distinct(es, key@, response@);
            }
            self.cache = cache;
        } else {
            cache.push((key, response));
            assert(entries_of(cache@) =~= es.push(k2));
            assert(distinct_keys(entries_of(cache@))) by {
                assert forall|a: int, b: int|
                    0 <= a < entries_of(cache@).len() && 0 <= b < entries_of(cache@).len() && a
                        != b implies #[trigger] entries_of(cache@)[a].0 != #[trigger] entries_of(
                    cache@,
                )[b].0 by {
                    if a < es.len() && b < es.len() {
                        assert(es[a].0 != es[b].0);
                    }
                }
            }
            self.stats = ClusterStats { unique_requests: self.stats.unique_requests + 1, ..self.stats };
            self.cache = cache;
        }
    }

    /// The cached response when there is one; otherwise runs `executor` and,
    /// when it succeeds, caches and returns its response.
    pub fn get_or_execute<E, F>(&mut self, request: &ScanRequest, executor: F) -> (r: Result<HttpResponse, E>)
        where
            F: FnOnce(&ScanRequest) -> Result<HttpResponse, E>,
        requires
            old(self)@.stats.total_requests < u64::MAX,
            old(self)@.stats.unique_requests < u64::MAX,
            executor.requires((request,)),
        ensures
            match lookup(old(self)@.entries, cluster_key_of(request@)) {
                Some(v) => {
                    &&& r matches Ok(resp) && resp@ == v
                    &&& final(self)@.entries == old(self)@.entries
                    &&& final(self)@.stats == (ClusterStats {
                        total_requests: (old(self)@.stats.total_requests + 1) as u64,
                        cache_hits: (old(self)@.stats.cache_hits + 1) as u64,
                        ..old(self)@.stats
                    })
                },
                None => {
                    &&& executor.ensures((request,), r)
                    &&& r matches Ok(resp) ==> final(self)@.entries == old(self)@.entries.push(
                        (cluster_key_of(request@), resp@),
                    ) && final(self)@.stats == (ClusterStats {
                        total_requests: (old(self)@.stats.total_requests + 1) as u64,
                        cache_misses: (old(self)@.stats.cache_misses + 1) as u64,
                        unique_requests: (old(self)@.stats.unique_requests + 1) as u64,
                        ..old(self)@.stats
                    })
                    &&& r is Err ==> final(self)@.entries == old(self)@.entries && final(self)@.stats
                        == (ClusterStats {
                        total_requests: (old(self)@.stats.total_requests + 1) as u64,
                        cache_misses: (old(self)@.stats.cache_misses + 1) as u64,
                        ..old(self)@.stats
                    })
                },
            },
    {
        if let Some(cached) = self.get_cached_response(request) {
            return Ok(cached);
        }
        let response = executor(request);
        match response {
            Ok(resp) => {
                let copy = resp.clone();
                self.cache_response(request, copy);
                Ok(resp)
            },
            Err(e) => Err(e),
        }
    }

    /// Empties the cache and zeroes the counters.
    pub fn clear(&mut self)
        ensures
            final(self)@.entries.len() == 0,
            final(self)@.stats == ClusterStats::default_spec(),
    {
        proof {
            use_type_invariant(&*self);
        }
        let empty: Vec<(String, HttpResponse)> = Vec::new();
        assert(entries_of(empty@) =~= Seq::<(Seq<char>, ResponseView)>::empty());
        self.cache = empty;
        self.stats = ClusterStats::zero();
    }

    /// The counters: every lookup counted is a hit or a miss, and every
    /// cached key was counted as a unique request.
    pub fn stats(&self) -> (s: &ClusterStats)
        ensures
            *s == self@.stats,
            s.cache_hits + s.cache_misses == s.total_requests,
            s.unique_requests >= self@.entries.len(),
    {
        proof {
            use_type_invariant(self);
        }
        &self.stats
    }

    /// Number of cached responses.
    pub fn cache_size(&self) -> (n: usize)
        ensures
            n == self@.entries.len(),
    {
        self.cache.len()
    }

    /// Stores a fresh response, then, where the cache holds more than
    /// `max_cache` entries, keeps only the newest `max_cache / 2`.
    pub fn store_and_evict(&mut self, request: &ScanRequest, response: HttpResponse, max_cache: usize)
        requires
            old(self)@.stats.unique_requests < u64::MAX,
        ensures
            final(self)@.entries == evicted(store(old(self)@.entries, cluster_key_of(request@), response@), max_cache),
            final(self)@.stats == (ClusterStats {
                unique_requests: if lookup(old(self)@.entries, cluster_key_of(request@)) is Some {
                    old(self)@.stats.unique_requests
                } else {
                    (old(self)@.stats.unique_requests + 1) as u64
                },
                ..old(self)@.stats
            }),
    {
        self.cache_response(request, response);
        if self.cache_size() > max_cache {
            self.cleanup(max_cache / 2);
        }
    }

    /// Keeps at most `max_entries` entries, dropping the least recently
    /// stored first.
    pub fn cleanup(&mut self, max_entries: usize)
        ensures
            final(self)@.stats == old(self)@.stats,
            old(self)@.entries.len() > max_entries ==> final(self)@.entries == old(self)@.entries.skip(
                old(self)@.entries.len() - max_entries,
            ),
            old(self)@.entries.len() <= max_entries ==> final(self)@.entries == old(self)@.entries,
    {
        proof {
            use_type_invariant(&*self);
        }
        if self.cache.len() > max_entries {
            let ghost es = self@.entries;
            let drop = self.cache.len() - max_entries;
            let mut old_cache: Vec<(String, HttpResponse)> = Vec::new();
            std::mem::swap(&mut old_cache, &mut self.cache);
            let ghost oc = old_cache@;
            assert(entries_of(oc) == es);
            let rest = old_cache.split_off(drop);
            assert(rest@ =~= oc.skip(drop as int));
            assert(entries_of(rest@) =~= es.skip(drop as int));
            assert(distinct_keys(entries_of(rest@))) by {
                assert forall|a: int, b: int|
                    0 <= a < entries_of(rest@).len() && 0 <= b < entries_of(rest@).len() && a != b
                        implies #[trigger] entries_of(rest@)[a].0 != #[trigger] entries_of(
                    rest@,
                )[b].0 by {
                    assert(entries_of(rest@)[a] == es[a + drop]);
                    assert(entries_of(rest@)[b] == es[b + drop]);
                }
            }
            self.cache = rest;
        }
    }

    /// The cluster keys held, least recently stored first; no key occurs
    /// twice.
    pub fn get_request_patterns(&self) -> (keys: Vec<String>)
        ensures
            keys@.map_values(|k: String| k@) == self@.entries.map_values(
                |e: (Seq<char>, ResponseView)| e.0,
            ),
            forall|a: int, b: int|
                0 <= a < keys@.len() && 0 <= b < keys@.len() && a != b ==> #[trigger] keys@[a]@
                    != #[trigger] keys@[b]@,
    {
        proof {
            use_type_invariant(self);
        }
        let mut keys: Vec<String> = Vec::new();
        for i in 0..self.cache.len()
            invariant
                keys@.len() == i,
                i <= self.cache@.len(),
                forall|j: int| 0 <= j < i ==> keys@[j]@ == self.cache@[j].0@,
        {
            keys.push(self.cache[i].0.clone());
        }
        assert(keys@.map_values(|k: String| k@) =~= self@.entries.map_values(
            |e: (Seq<char>, ResponseView)| e.0,
        ));
        assert forall|a: int, b: int|
            0 <= a < keys@.len() && 0 <= b < keys@.len() && a != b implies #[trigger] keys@[a]@
                != #[trigger] keys@[b]@ by {
            assert(self@.entries[a].0 != self@.entries[b].0);
        }
        keys
    }

    /// Whether two requests share a cluster key.
    pub fn would_cluster(req1: &ScanRequest, req2: &ScanRequest) -> (b: bool)
        ensures
            b == (cluster_key_of(req1@) == cluster_key_of(req2@)),
    {
        let k1 = req1.cluster_key();
        let k2 = req2.cluster_key();
        k1 == k2
    }
}

impl ClusterStats {
    pub open spec fn default_spec() -> ClusterStats {
        ClusterStats { total_requests: 0, cache_hits: 0, cache_misses: 0, unique_requests: 0 }
    }
}

impl Default for RequestCluster {
    fn default() -> (c: Self)
        ensures
            c@.entries.len() == 0,
            c@.stats == ClusterStats::default_spec(),
    {
        RequestCluster::new()
    }
}

/// In entries with distinct keys, the entry of key `k` is the one a lookup
/// finds.
pub proof fn lemma_lookup_at(entries: Seq<(Seq<char>, ResponseView)>, k: Seq<char>, j: int)
    requires
        distinct_keys(entries),
        0 <= j < entries.len(),
        entries[j].0 == k,
    ensures
        lookup(entries, k) == Some(entries[j].1),
{
    lemma_key_index(entries, k);
    let i = key_index(entries, k);
    assert(i <= j);
    assert(entries[i].0 == k);
}

/// A key held by no entry is found by no lookup.
pub proof fn lemma_lookup_absent(entries: Seq<(Seq<char>, ResponseView)>, k: Seq<char>)
    requires
        forall|j: int| 0 <= j < entries.len() ==> entries[j].0 != k,
    ensures
        lookup(entries, k) is None,
{
    lemma_key_index(entries, k);
}

/// Storing keeps every key stored once.
pub proof fn law_store_keeps_keys_distinct(entries: Seq<(Seq<char>, ResponseView)>, k: Seq<char>, r: ResponseView)
    requires
        distinct_keys(entries),
    ensures
        distinct_keys(store(entries, k, r)),
{
    lemma_key_index(entries, k);
    let s = store(entries, k, r);
    let i = key_index(entries, k);
    if i < entries.len() {
        let m = entries.remove(i);
        assert forall|a: int| 0 <= a < m.len() implies #[trigger] m[a] == entries[if a < i { a } else { a + 1 }] by {}
        assert forall|a: int, b: int|
            0 <= a < s.len() && 0 <= b < s.len() && a != b implies #[trigger] s[a].0 != #[trigger] s[b].0 by {
            let ea = if a < i { a } else { a + 1 };
            let eb = if b < i { b } else { b + 1 };
            if a < m.len() && b < m.len() {
                assert(s[a] == m[a] && m[a] == entries[ea]);
                assert(s[b] == m[b] && m[b] == entries[eb]);
                assert(entries[ea].0 != entries[eb].0);
            } else if a == m.len() {
                assert(s[b] == m[b] && m[b] == entries[eb]);
                assert(eb != i);
                assert(entries[eb].0 != entries[i].0);
            } else {
                assert(s[a] == m[a] && m[a] == entries[ea]);
                assert(ea != i);
                assert(entries[ea].0 != entries[i].0);
            }
        }
    } else {
        assert forall|a: int, b: int|
            0 <= a < s.len() && 0 <= b < s.len() && a != b implies #[trigger] s[a].0 != #[trigger] s[b].0 by {
            if a < entries.len() && b < entries.len() {
                assert(entries[a].0 != entries[b].0);
            } else if a == entries.len() {
                assert(entries[b].0 != k);
            } else {
                assert(entries[a].0 != k);
            }
        }
    }
}

/// A response stored under a key is what a lookup of that key gives.
pub proof fn law_lookup_after_store(entries: Seq<(Seq<char>, ResponseView)>, k: Seq<char>, r: ResponseView)
    requires
        distinct_keys(entries),
    ensures
        lookup(store(entries, k, r), k) == Some(r),
{
    law_store_keeps_keys_distinct(entries, k, r);
    let s = store(entries, k, r);
    lemma_lookup_at(s, k, s.len() - 1);
}

/// Storing a response under one key leaves what every other key gives.
pub proof fn law_store_keeps_other_keys(entries: Seq<(Seq<char>, ResponseView)>, k: Seq<char>, other: Seq<char>, r: ResponseView)
    requires
        distinct_keys(entries),
        other != k,
    ensures
        lookup(store(entries, k, r), other) == lookup(entries, other),
{
    law_store_keeps_keys_distinct(entries, k, r);
    lemma_key_index(entries, k);
    lemma_key_index(entries, other);
    let s = store(entries, k, r);
    let i = key_index(entries, k);
    let j = key_index(entries, other);
    if j < entries.len() {
        lemma_lookup_at(entries, other, j);
        if i < entries.len() {
            assert(j != i);
            let jj = if j < i { j } else { j - 1 };
            assert(s[jj] == entries.remove(i)[jj]);
            assert(entries.remove(i)[jj] == entries[j]);
            lemma_lookup_at(s, other, jj);
        } else {
            assert(s[j] == entries[j]);
            lemma_lookup_at(s, other, j);
        }
    } else {
        assert forall|m: int| 0 <= m < entries.len() implies entries[m].0 != other by {
            if entries[m].0 == other {
                lemma_lookup_at(entries, other, m);
            }
        }
        assert forall|m: int| 0 <= m < s.len() implies s[m].0 != other by {
            if i < entries.len() {
                if m < s.len() - 1 {
                    let mm = if m < i { m } else { m + 1 };
                    assert(s[m] == entries.remove(i)[m]);
                    assert(entries.remove(i)[m] == entries[mm]);
                }
            } else if m < entries.len() {
                assert(s[m] == entries[m]);
            }
        }
        lemma_lookup_absent(s, other);
    }
}

/// After a cleanup down to `max` entries, the kept keys are the ones stored
/// most recently: storing a key again saves it from the next cleanup.
pub proof fn law_restored_key_survives_cleanup(entries: Seq<(Seq<char>, ResponseView)>, k: Seq<char>, r: ResponseView, max: usize)
    requires
        max >= 1,
    ensures
        ({
            let s = store(entries, k, r);
            let kept = if s.len() > max { s.skip(s.len() - max) } else { s };
            kept.len() > 0 && kept.last() == (k, r)
        }),
{
}

} // verus!
