//! Response cache for API endpoints, with time-to-live expiry, weak entity
//! tags for conditional requests, and hit/miss statistics.
//!
//! Times are milliseconds on the caller's clock; every operation that
//! consults the clock exists in a form taking `now_ms` and in a form that
//! reads the cache's own monotonic clock, which counts milliseconds from the
//! moment the cache was made.

use vstd::prelude::*;
use vstd::bytes::*;
use vstd::string::StringExecFns;
use std::collections::hash_map::DefaultHasher;
use std::hash::Hasher;
use vstd::std_specs::hash::DefaultHasherAdditionalSpecFns;
use crate::fmt::{hex, lemma_hex_injective, lemma_hex_renders_value, push_hex};
use crate::sys::{elapsed_millis, instant_now};
use crate::text::append_bytes;

verus! {

/// Cache statistics.
#[derive(Clone, Copy, Debug, PartialEq, Eq, Structural)]
pub struct CacheStats {
    pub total_requests: usize,
    pub cache_hits: usize,
    pub cache_misses: usize,
    pub etag_hits: usize,
}

impl Default for CacheStats {
    fn default() -> (s: CacheStats)
        ensures
            s == (CacheStats { total_requests: 0, cache_hits: 0, cache_misses: 0, etag_hits: 0 }),
    {
        CacheStats { total_requests: 0, cache_hits: 0, cache_misses: 0, etag_hits: 0 }
    }
}

/// Fingerprint of a body: the standard hasher fed the body length twice
/// (as the length and as the slice's length prefix) and then the bytes.
pub open spec fn body_fingerprint(body: Seq<u8>) -> u64 {
    let len_bytes = spec_u64_to_le_bytes(body.len() as u64);
    DefaultHasher::spec_finish(seq![len_bytes, len_bytes, body])
}

/// Weak entity tag of a body: `W/"<fingerprint hex>-<length hex>"`.
pub open spec fn etag_of(body: Seq<u8>) -> Seq<char> {
    "W/\""@ + hex(body_fingerprint(body) as nat) + "-"@ + hex(body.len()) + "\""@
}

/// Compute the weak entity tag of `body`.
pub fn compute_etag(body: &[u8]) -> (tag: String)
    ensures
        tag@ == etag_of(body@),
{
    let mut hasher = DefaultHasher::new();
    let len_bytes = u64_to_le_bytes(body.len() as u64);
    hasher.write(len_bytes.as_slice());
    hasher.write(len_bytes.as_slice());
    hasher.write(body);
    let fingerprint = hasher.finish();
    proof {
        assert(hasher@ =~= seq![len_bytes@, len_bytes@, body@]);
    }
    let mut tag = "W/\"".to_owned();
    push_hex(&mut tag, fingerprint, 0);
    tag.append("-");
    push_hex(&mut tag, body.len() as u64, 0);
    tag.append("\"");
    tag
}

/// One cached response.
#[derive(Clone, Debug)]
struct CachedResponse {
    key: String,
    body: Vec<u8>,
    etag: String,
    expires_at_ms: u64,
}

/// Abstract value of a cache entry.
pub struct EntryView {
    pub body: Seq<u8>,
    pub etag: Seq<char>,
    pub expires_at_ms: u64,
}

/// Whether an entry is still fresh at `now`.
pub open spec fn fresh(e: EntryView, now: u64) -> bool {
    e.expires_at_ms > now
}

/// Response cache.
#[derive(Debug)]
pub struct ApiResponseCache {
    entries: Vec<CachedResponse>,
    stats: CacheStats,
    clock: std::time::Instant,
}

spec fn entry_view(c: CachedResponse) -> EntryView {
    EntryView { body: c.body@, etag: c.etag@, expires_at_ms: c.expires_at_ms }
}

impl ApiResponseCache {
    /// Keys are stored at most once.
    pub closed spec fn wf(&self) -> bool {
        forall|i: int, j: int|
            0 <= i < self.entries@.len() && 0 <= j < self.entries@.len() && i != j
                ==> #[trigger] self.entries@[i].key@ != #[trigger] self.entries@[j].key@
    }

    /// Cached entries by key.
    pub closed spec fn entries(&self) -> Map<Seq<char>, EntryView> {
        Map::new(
            |k: Seq<char>| exists|i: int| 0 <= i < self.entries@.len() && self.entries@[i].key@ == k,
            |k: Seq<char>|
                entry_view(
                    self.entries@[choose|i: int|
                        0 <= i < self.entries@.len() && self.entries@[i].key@ == k],
                ),
        )
    }

    /// Current statistics.
    pub closed spec fn spec_stats(&self) -> CacheStats {
        self.stats
    }

    /// Empty cache with zeroed statistics.
    pub fn new() -> (c: ApiResponseCache)
        ensures
            c.wf(),
            c.entries() == Map::<Seq<char>, EntryView>::empty(),
            c.spec_stats() == (CacheStats { total_requests: 0, cache_hits: 0, cache_misses: 0, etag_hits: 0 }),
    {
        let c = ApiResponseCache { entries: Vec::new(), stats: CacheStats::default(), clock: instant_now() };
        proof {
            assert(c.entries() =~= Map::<Seq<char>, EntryView>::empty());
        }
        c
    }

    /// Index of the entry for `key`.
    fn find(&self, key: &String) -> (r: Option<usize>)
        requires
            self.wf(),
        ensures
            r matches Some(i) ==> i < self.entries@.len() && self.entries@[i as int].key@ == key@
                && self.entries().contains_key(key@) && self.entries()[key@] == entry_view(
                self.entries@[i as int],
            ),
            r is None ==> !self.entries().contains_key(key@),
    {
        let mut i: usize = 0;
        while i < self.entries.len()
            invariant
                i <= self.entries@.len(),
                self.wf(),
                forall|j: int| 0 <= j < i ==> self.entries@[j].key@ != key@,
            decreases self.entries@.len() - i,
        {
            if self.entries[i].key == *key {
                proof {
                    let w = choose|j: int| 0 <= j < self.entries@.len() && self.entries@[j].key@ == key@;
                    if w != i as int {
                        assert(self.entries@[w].key@ != self.entries@[i as int].key@);
                    }
                }
                return Some(i);
            }
            i += 1;
        }
        None
    }

    /// Store (or replace) the entry for `key`.
    fn store(&mut self, key: String, body: Vec<u8>, etag: String, expires_at_ms: u64)
        requires
            old(self).wf(),
        ensures
            final(self).wf(),
            final(self).entries() == old(self).entries().insert(
                key@,
                EntryView { body: body@, etag: etag@, expires_at_ms },
            ),
            final(self).spec_stats() == old(self).spec_stats(),
    {
        let ghost k = key@;
        let ghost ev = EntryView { body: body@, etag: etag@, expires_at_ms };
        let found = self.find(&key);
        let entry = CachedResponse { key, body, etag, expires_at_ms };
        match found {
            Some(i) => {
                self.entries.set(i, entry);
                proof {
                    assert forall|kk: Seq<char>| #[trigger] self.entries().contains_key(kk) <==> old(
                        self,
                    ).entries().insert(k, ev).contains_key(kk) by {
                        if kk == k {
                            assert(self.entries@[i as int].key@ == kk);
                        }
                        if old(self).entries().contains_key(kk) && kk != k {
                            let w = choose|j: int|
                                0 <= j < old(self).entries@.len() && old(self).entries@[j].key@ == kk;
                            assert(self.entries@[w].key@ == kk);
                        }
                        if self.entries().contains_key(kk) {
                            let w = choose|j: int|
                                0 <= j < self.entries@.len() && self.entries@[j].key@ == kk;
                            if w != i {
                                assert(old(self).entries@[w].key@ == kk);
                            }
                        }
                    }
                    assert forall|kk: Seq<char>| #[trigger] self.entries().contains_key(kk) implies self.entries()[kk] == old(self).entries().insert(k, ev)[kk] by {
                        let w = choose|j: int|
                            0 <= j < self.entries@.len() && self.entries@[j].key@ == kk;
                        if kk == k {
                            assert(w == i as int);
                        } else {
                            let w2 = choose|j: int|
                                0 <= j < old(self).entries@.len() && old(self).entries@[j].key@ == kk;
                            assert(w != i as int);
                            assert(old(self).entries@[w].key@ == kk);
                            assert(w == w2);
                        }
                    }
                    assert(self.entries() =~= old(self).entries().insert(k, ev));
                }
            },
            None => {
                self.entries.push(entry);
                proof {
                    let n = old(self).entries@.len() as int;
                    assert forall|kk: Seq<char>| #[trigger] self.entries().contains_key(kk) <==> old(
                        self,
                    ).entries().insert(k, ev).contains_key(kk) by {
                        if old(self).entries().contains_key(kk) && kk != k {
                            let w = choose|j: int|
                                0 <= j < old(self).entries@.len() && old(self).entries@[j].key@ == kk;
                            assert(self.entries@[w].key@ == kk);
                        }
                        if kk == k {
                            assert(self.entries@[n].key@ == kk);
                        }
                        if self.entries().contains_key(kk) {
                            let w = choose|j: int|
                                0 <= j < self.entries@.len() && self.entries@[j].key@ == kk;
                            if w != n {
                                assert(old(self).entries@[w].key@ == kk);
                            }
                        }
                    }
                    assert forall|kk: Seq<char>| #[trigger] self.entries().contains_key(kk) implies self.entries()[kk] == old(self).entries().insert(k, ev)[kk] by {
                        let w = choose|j: int|
                            0 <= j < self.entries@.len() && self.entries@[j].key@ == kk;
                        if kk == k {
                            assert(self.entries@[n].key@ == kk);
                            if w != n {
                                assert(old(self).entries@[w].key@ == kk);
                                assert(old(self).entries().contains_key(kk));
                            }
                        } else {
                            let w2 = choose|j: int|
                                0 <= j < old(self).entries@.len() && old(self).entries@[j].key@ == kk;
                            assert(w != n);
                            assert(old(self).entries@[w].key@ == kk);
                            assert(w == w2);
                        }
                    }
                    assert(self.entries() =~= old(self).entries().insert(k, ev));
                }
            },
        }
    }
}


/// Stats after one more request (wrapping counter).
pub open spec fn count_request(s: CacheStats) -> CacheStats {
    CacheStats { total_requests: s.total_requests.wrapping_add(1), ..s }
}

/// What `get_or_compute` does at time `now`, from cache state `(m, s)` to
/// `(m2, s2)`, returning `r`: a fresh entry is served from the cache (a
/// hit); otherwise `compute_fn` runs (a miss), and its body is stored with
/// its entity tag until `now + ttl` (saturating), or its error is returned.
pub open spec fn get_or_compute_post<F: FnOnce() -> Result<Vec<u8>, String>>(
    m: Map<Seq<char>, EntryView>,
    s: CacheStats,
    m2: Map<Seq<char>, EntryView>,
    s2: CacheStats,
    key: Seq<char>,
    ttl_ms: u64,
    now_ms: u64,
    compute_fn: F,
    r: Result<(Vec<u8>, String), String>,
) -> bool {
    if m.contains_key(key) && fresh(m[key], now_ms) {
        &&& s2 == CacheStats { cache_hits: s.cache_hits.wrapping_add(1), ..count_request(s) }
        &&& m2 == m
        &&& r matches Ok((b, t)) && b@ == m[key].body && t@ == m[key].etag
    } else {
        &&& s2 == CacheStats { cache_misses: s.cache_misses.wrapping_add(1), ..count_request(s) }
        &&& exists|out: Result<Vec<u8>, String>|
            #![trigger call_ensures(compute_fn, (), out)]
            call_ensures(compute_fn, (), out) && match out {
                Ok(body) => {
                    &&& r matches Ok((b, t)) && b@ == body@ && t@ == etag_of(body@)
                    &&& m2 == m.insert(
                        key,
                        EntryView {
                            body: body@,
                            etag: etag_of(body@),
                            expires_at_ms: now_ms.saturating_add(ttl_ms),
                        },
                    )
                },
                Err(e) => r == Err::<(Vec<u8>, String), String>(e) && m2 == m,
            }
    }
}

/// What a body computation may give: `computes(key, out)` holds when
/// computing the body of `key` may return `out`.
pub open spec fn computes_with<'a, F: Fn(&'a str) -> Result<Vec<u8>, String>>(
    compute_fn: F,
) -> spec_fn(&'a str, Result<Vec<u8>, String>) -> bool {
    |key: &'a str, out: Result<Vec<u8>, String>| call_ensures(compute_fn, (key,), out)
}

/// One endpoint of a warm-up at time `now`, from cache state `(m, s)` to
/// `(m2, s2)` with outcome `r`: as [`get_or_compute_post`], with the body
/// computed as `computes` allows, the body itself dropped.
pub open spec fn warm_step<'a>(
    m: Map<Seq<char>, EntryView>,
    s: CacheStats,
    m2: Map<Seq<char>, EntryView>,
    s2: CacheStats,
    key: &'a str,
    ttl_ms: u64,
    now_ms: u64,
    computes: spec_fn(&'a str, Result<Vec<u8>, String>) -> bool,
    r: Result<(), String>,
) -> bool {
    if m.contains_key(key@) && fresh(m[key@], now_ms) {
        &&& s2 == CacheStats { cache_hits: s.cache_hits.wrapping_add(1), ..count_request(s) }
        &&& m2 == m
        &&& r is Ok
    } else {
        &&& s2 == CacheStats { cache_misses: s.cache_misses.wrapping_add(1), ..count_request(s) }
        &&& exists|out: Result<Vec<u8>, String>|
            #![trigger computes(key, out)]
            computes(key, out) && match out {
                Ok(body) => {
                    &&& r is Ok
                    &&& m2 == m.insert(
                        key@,
                        EntryView { body: body@, etag: etag_of(body@), expires_at_ms: now_ms.saturating_add(ttl_ms) },
                    )
                },
                Err(e) => r == Err::<(), String>(e) && m2 == m,
            }
    }
}

/// A warm-up of `endpoints` in order at time `now`, from `(m, s)`, that
/// ends in `(mf, sf)` with outcome `r`: each endpoint is a [`warm_step`]
/// from the state the previous one left; the first step that fails ends the
/// warm-up with its error, and `Ok` comes only when every step succeeded.
pub open spec fn warm_run<'a>(
    m: Map<Seq<char>, EntryView>,
    s: CacheStats,
    endpoints: Seq<(&'a str, u64)>,
    now_ms: u64,
    computes: spec_fn(&'a str, Result<Vec<u8>, String>) -> bool,
    mf: Map<Seq<char>, EntryView>,
    sf: CacheStats,
    r: Result<(), String>,
) -> bool
    decreases endpoints.len(),
{
    if endpoints.len() == 0 {
        mf == m && sf == s && r is Ok
    } else {
        exists|m1: Map<Seq<char>, EntryView>, s1: CacheStats, r1: Result<(), String>|
            #[trigger] warm_step(m, s, m1, s1, endpoints[0].0, endpoints[0].1, now_ms, computes, r1) && match r1 {
                Ok(_) => warm_run(m1, s1, endpoints.drop_first(), now_ms, computes, mf, sf, r),
                Err(e) => mf == m1 && sf == s1 && r == Err::<(), String>(e),
            }
    }
}

/// The keys of the first `n` endpoints.
pub open spec fn endpoint_keys(endpoints: Seq<(&str, u64)>, n: int) -> Set<Seq<char>> {
    Set::new(|k: Seq<char>| exists|j: int| 0 <= j < n && #[trigger] endpoints[j].0@ == k)
}

/// After warming the first `n` endpoints, the cache holds exactly the keys
/// it held before and those endpoints' keys, and every entry of another
/// key is as it was.
pub open spec fn warmed(
    m: Map<Seq<char>, EntryView>,
    m2: Map<Seq<char>, EntryView>,
    endpoints: Seq<(&str, u64)>,
    n: int,
) -> bool {
    &&& m2.dom() == m.dom().union(endpoint_keys(endpoints, n))
    &&& forall|k: Seq<char>| #[trigger] m.contains_key(k) && !endpoint_keys(endpoints, n).contains(k) ==> m2[k] == m[k]
}

impl ApiResponseCache {
    /// Serve `key` from the cache at time `now_ms` if its entry is fresh;
    /// otherwise compute the body, tag it, and cache it for `ttl_ms`.
    pub fn get_or_compute_at<F: FnOnce() -> Result<Vec<u8>, String>>(
        &mut self,
        key: &str,
        ttl_ms: u64,
        now_ms: u64,
        compute_fn: F,
    ) -> (r: Result<(Vec<u8>, String), String>)
        requires
            old(self).wf(),
            compute_fn.requires(()),
        ensures
            final(self).wf(),
            get_or_compute_post(
                old(self).entries(),
                old(self).spec_stats(),
                final(self).entries(),
                final(self).spec_stats(),
                key@,
                ttl_ms,
                now_ms,
                compute_fn,
                r,
            ),
    {
        self.stats.total_requests = self.stats.total_requests.wrapping_add(1);
        let key_string = key.to_owned();
        match self.find(&key_string) {
            Some(i) => {
                if self.entries[i].expires_at_ms > now_ms {
                    self.stats.cache_hits = self.stats.cache_hits.wrapping_add(1);
                    let body = self.entries[i].body.clone();
                    let etag = self.entries[i].etag.clone();
                    return Ok((body, etag));
                }
            },
            None => {},
        }
        self.stats.cache_misses = self.stats.cache_misses.wrapping_add(1);
        let out = compute_fn();
        match out {
            Ok(body) => {
                let etag = compute_etag(body.as_slice());
                let stored_body = body.clone();
                let stored_etag = etag.clone();
                self.store(key_string, stored_body, stored_etag, now_ms.saturating_add(ttl_ms));
                Ok((body, etag))
            },
            Err(e) => Err(e),
        }
    }

    /// [`ApiResponseCache::get_or_compute_at`] at the current time.
    pub fn get_or_compute<F: FnOnce() -> Result<Vec<u8>, String>>(
        &mut self,
        key: &str,
        ttl_ms: u64,
        compute_fn: F,
    ) -> (r: Result<(Vec<u8>, String), String>)
        requires
            old(self).wf(),
            compute_fn.requires(()),
        ensures
            final(self).wf(),
            exists|now: u64|
                get_or_compute_post(
                    old(self).entries(),
                    old(self).spec_stats(),
                    final(self).entries(),
                    final(self).spec_stats(),
                    key@,
                    ttl_ms,
                    now,
                    compute_fn,
                    r,
                ),
    {
        let now = elapsed_millis(&self.clock);
        self.get_or_compute_at(key, ttl_ms, now, compute_fn)
    }

    /// Whether the client's entity tag matches the fresh entry for `key` at
    /// time `now_ms`.
    pub fn etag_matches_at(&self, key: &str, client_etag: &str, now_ms: u64) -> (b: bool)
        requires
            self.wf(),
        ensures
            b == (self.entries().contains_key(key@) && fresh(self.entries()[key@], now_ms)
                && self.entries()[key@].etag == client_etag@),
    {
        let key_string = key.to_owned();
        match self.find(&key_string) {
            Some(i) => {
                if self.entries[i].expires_at_ms > now_ms {
                    let client = client_etag.to_owned();
                    return self.entries[i].etag == client;
                }
                false
            },
            None => false,
        }
    }

    /// [`ApiResponseCache::etag_matches_at`] at the current time.
    pub fn etag_matches(&self, key: &str, client_etag: &str) -> (b: bool)
        requires
            self.wf(),
        ensures
            exists|now: u64|
                #![trigger fresh(self.entries()[key@], now)]
                b == (self.entries().contains_key(key@) && fresh(self.entries()[key@], now)
                    && self.entries()[key@].etag == client_etag@),
    {
        let now = elapsed_millis(&self.clock);
        let b = self.etag_matches_at(key, client_etag, now);
        proof {
            assert(fresh(self.entries()[key@], now) == (self.entries()[key@].expires_at_ms > now));
        }
        b
    }

    /// Count a conditional request answered with "not modified".
    pub fn record_etag_hit(&mut self)
        ensures
            final(self).spec_stats() == (CacheStats {
                etag_hits: old(self).spec_stats().etag_hits.wrapping_add(1),
                ..old(self).spec_stats()
            }),
            final(self).entries() == old(self).entries(),
            final(self).wf() == old(self).wf(),
    {
        self.stats.etag_hits = self.stats.etag_hits.wrapping_add(1);
        proof {
            assert(self.entries() =~= old(self).entries());
        }
    }

    /// Current statistics.
    pub fn stats(&self) -> (s: CacheStats)
        ensures
            s == self.spec_stats(),
    {
        self.stats
    }

    /// Drop every entry and zero the statistics.
    pub fn clear(&mut self)
        ensures
            final(self).wf(),
            final(self).entries() == Map::<Seq<char>, EntryView>::empty(),
            final(self).spec_stats() == (CacheStats {
                total_requests: 0,
                cache_hits: 0,
                cache_misses: 0,
                etag_hits: 0,
            }),
    {
        self.entries.clear();
        self.stats = CacheStats::default();
        proof {
            assert(self.entries() =~= Map::<Seq<char>, EntryView>::empty());
        }
    }

    /// Fill the cache for each `(key, ttl_ms)` endpoint in order at time
    /// `now_ms`, computing bodies with `compute_fn(key)` where needed; stops
    /// at the first error and returns it.
    pub fn pre_warm_at<F: Fn(&str) -> Result<Vec<u8>, String>>(
        &mut self,
        endpoints: Vec<(&str, u64)>,
        now_ms: u64,
        compute_fn: F,
    ) -> (r: Result<(), String>)
        requires
            old(self).wf(),
            forall|i: int| 0 <= i < endpoints@.len() ==> compute_fn.requires((endpoints@[i].0,)),
        ensures
            final(self).wf(),
            warm_run(
                old(self).entries(),
                old(self).spec_stats(),
                endpoints@,
                now_ms,
                computes_with(compute_fn),
                final(self).entries(),
                final(self).spec_stats(),
                r,
            ),
            r is Ok ==> warmed(old(self).entries(), final(self).entries(), endpoints@, endpoints@.len() as int),
            r matches Err(e) ==> exists|i: int|
                0 <= i < endpoints@.len() && warmed(old(self).entries(), final(self).entries(), endpoints@, i)
                    && call_ensures(compute_fn, (#[trigger] endpoints@[i].0,), Err::<Vec<u8>, String>(e)),
    {
        let mut i: usize = 0;
        proof {
            assert(endpoints@.skip(0) =~= endpoints@);
            assert(endpoint_keys(endpoints@, 0) =~= Set::<Seq<char>>::empty());
            assert(self.entries().dom() =~= self.entries().dom().union(endpoint_keys(endpoints@, 0)));
        }
        while i < endpoints.len()
            invariant
                self.wf(),
                i <= endpoints@.len(),
                forall|j: int| 0 <= j < endpoints@.len() ==> compute_fn.requires((endpoints@[j].0,)),
                warmed(old(self).entries(), self.entries(), endpoints@, i as int),
                forall|mf: Map<Seq<char>, EntryView>, sf: CacheStats, rf: Result<(), String>|
                    #[trigger] warm_run(self.entries(), self.spec_stats(), endpoints@.skip(i as int), now_ms, computes_with(compute_fn), mf, sf, rf)
                        ==> warm_run(old(self).entries(), old(self).spec_stats(), endpoints@, now_ms, computes_with(compute_fn), mf, sf, rf),
            decreases endpoints@.len() - i,
        {
            let key: &str = endpoints[i].0;
            let ttl_ms = endpoints[i].1;
            let f = || -> (out: Result<Vec<u8>, String>)
                requires
                    compute_fn.requires((key,)),
                ensures
                    call_ensures(compute_fn, (key,), out),
                { compute_fn(key) };
            let ghost before = self.entries();
            let ghost before_stats = self.spec_stats();
            let res = self.get_or_compute_at(key, ttl_ms, now_ms, f);
            let ghost step: Result<(), String> = if res is Ok { Ok(()) } else { Err(res->Err_0) };
            proof {
                let rest = endpoints@.skip(i as int);
                assert(rest[0] == endpoints@[i as int]);
                assert(rest.drop_first() =~= endpoints@.skip(i as int + 1));
                if !(before.contains_key(key@) && fresh(before[key@], now_ms)) {
                    let out = choose|out: Result<Vec<u8>, String>| #[trigger] call_ensures(f, (), out) && match out {
                        Ok(body) => {
                            &&& res matches Ok((b, t)) && b@ == body@ && t@ == etag_of(body@)
                            &&& self.entries() == before.insert(
                                key@,
                                EntryView { body: body@, etag: etag_of(body@), expires_at_ms: now_ms.saturating_add(ttl_ms) },
                            )
                        },
                        Err(e) => res == Err::<(Vec<u8>, String), String>(e) && self.entries() == before,
                    };
                    assert(computes_with(compute_fn)(key, out));
                }
                assert(warm_step(before, before_stats, self.entries(), self.spec_stats(), key, ttl_ms, now_ms, computes_with(compute_fn), step));
                assert forall|mf: Map<Seq<char>, EntryView>, sf: CacheStats, rf: Result<(), String>|
                    #[trigger] warm_run(self.entries(), self.spec_stats(), endpoints@.skip(i as int + 1), now_ms, computes_with(compute_fn), mf, sf, rf)
                        && step is Ok implies warm_run(before, before_stats, rest, now_ms, computes_with(compute_fn), mf, sf, rf) by {
                    assert(warm_step(before, before_stats, self.entries(), self.spec_stats(), rest[0].0, rest[0].1, now_ms, computes_with(compute_fn), step));
                }
                if step is Err {
                    let e = step->Err_0;
                    assert(warm_step(before, before_stats, self.entries(), self.spec_stats(), rest[0].0, rest[0].1, now_ms, computes_with(compute_fn), step));
                    assert(warm_run(before, before_stats, rest, now_ms, computes_with(compute_fn), self.entries(), self.spec_stats(), Err::<(), String>(e)));
                }
                let m0 = old(self).entries();
                assert(endpoint_keys(endpoints@, i as int + 1) =~= endpoint_keys(endpoints@, i as int).insert(key@)) by {
                    assert(endpoints@[i as int].0@ == key@);
                }
                if res is Ok {
                    assert(self.entries().dom() =~= m0.dom().union(endpoint_keys(endpoints@, i as int + 1)));
                }
            }
            match res {
                Ok(_) => {},
                Err(e) => {
                    return Err(e);
                },
            }
            i += 1;
        }
        proof {
            assert(endpoints@.skip(i as int).len() == 0);
            assert(warm_run(self.entries(), self.spec_stats(), endpoints@.skip(i as int), now_ms, computes_with(compute_fn), self.entries(), self.spec_stats(), Ok::<(), String>(())));
        }
        Ok(())
    }

    /// [`ApiResponseCache::pre_warm_at`] at the current time.
    pub fn pre_warm<F: Fn(&str) -> Result<Vec<u8>, String>>(
        &mut self,
        endpoints: Vec<(&str, u64)>,
        compute_fn: F,
    ) -> (r: Result<(), String>)
        requires
            old(self).wf(),
            forall|i: int| 0 <= i < endpoints@.len() ==> compute_fn.requires((endpoints@[i].0,)),
        ensures
            final(self).wf(),
            exists|now: u64| warm_run(
                old(self).entries(),
                old(self).spec_stats(),
                endpoints@,
                now,
                computes_with(compute_fn),
                final(self).entries(),
                final(self).spec_stats(),
                r,
            ),
            r is Ok ==> warmed(old(self).entries(), final(self).entries(), endpoints@, endpoints@.len() as int),
            r matches Err(e) ==> exists|i: int|
                0 <= i < endpoints@.len() && warmed(old(self).entries(), final(self).entries(), endpoints@, i)
                    && call_ensures(compute_fn, (#[trigger] endpoints@[i].0,), Err::<Vec<u8>, String>(e)),
    {
        let now = elapsed_millis(&self.clock);
        self.pre_warm_at(endpoints, now, compute_fn)
    }

    /// Number of cached entries.
    pub fn size(&self) -> (n: usize)
        requires
            self.wf(),
        ensures
            n == self.entries().len(),
    {
        proof {
            let keys = Seq::new(self.entries@.len(), |i: int| self.entries@[i].key@);
            assert(keys.no_duplicates()) by {
                assert forall|i: int, j: int|
                    0 <= i < keys.len() && 0 <= j < keys.len() && i != j implies keys[i] != keys[j] by {
                    assert(self.entries@[i].key@ != self.entries@[j].key@);
                }
            }
            keys.unique_seq_to_set();
            assert forall|k: Seq<char>| #[trigger] keys.to_set().contains(k) <==> self.entries().dom().contains(k) by {
                if keys.to_set().contains(k) {
                    let i = choose|i: int| 0 <= i < keys.len() && keys[i] == k;
                    assert(self.entries@[i].key@ == k);
                }
                if self.entries().dom().contains(k) {
                    let i = choose|i: int| 0 <= i < self.entries@.len() && self.entries@[i].key@ == k;
                    assert(keys[i] == k);
                }
            }
            assert(keys.to_set() =~= self.entries().dom());
        }
        self.entries.len()
    }
}


/// Read after write: once a miss has computed and cached a body at time
/// `t0`, a request for the same key before `t0 + ttl_ms` is a hit that
/// returns that body and tag and leaves the entries unchanged.
pub proof fn lemma_cached_body_is_served<F: FnOnce() -> Result<Vec<u8>, String>, G: FnOnce() -> Result<Vec<u8>, String>>(
    m: Map<Seq<char>, EntryView>,
    s: CacheStats,
    m2: Map<Seq<char>, EntryView>,
    s2: CacheStats,
    m3: Map<Seq<char>, EntryView>,
    s3: CacheStats,
    key: Seq<char>,
    ttl_ms: u64,
    t0: u64,
    t1: u64,
    ttl2_ms: u64,
    f: F,
    g: G,
    r1: Result<(Vec<u8>, String), String>,
    r2: Result<(Vec<u8>, String), String>,
)
    requires
        !(m.contains_key(key) && fresh(m[key], t0)),
        get_or_compute_post(m, s, m2, s2, key, ttl_ms, t0, f, r1),
        r1 is Ok,
        t0 + ttl_ms <= u64::MAX,
        t1 < t0 + ttl_ms,
        get_or_compute_post(m2, s2, m3, s3, key, ttl2_ms, t1, g, r2),
    ensures
        m3 == m2,
        s3.cache_hits == s2.cache_hits.wrapping_add(1),
        r2 matches Ok((b2, e2)) && r1 matches Ok((b1, e1)) && b2@ == b1@ && e2@ == e1@,
{
    let out = choose|out: Result<Vec<u8>, String>|
        #![trigger call_ensures(f, (), out)]
        call_ensures(f, (), out) && match out {
            Ok(body) => {
                &&& r1 matches Ok((b, t)) && b@ == body@ && t@ == etag_of(body@)
                &&& m2 == m.insert(
                    key,
                    EntryView {
                        body: body@,
                        etag: etag_of(body@),
                        expires_at_ms: t0.saturating_add(ttl_ms),
                    },
                )
            },
            Err(e) => r1 == Err::<(Vec<u8>, String), String>(e) && m2 == m,
        };
    assert(out is Ok);
    assert(m2.contains_key(key));
    assert(fresh(m2[key], t1));
}

/// Every request is counted once, as exactly one hit or one miss: if the
/// total equals hits plus misses before a `get_or_compute`, it still does
/// after (while no counter wraps).
pub proof fn lemma_requests_are_hits_or_misses<F: FnOnce() -> Result<Vec<u8>, String>>(
    m: Map<Seq<char>, EntryView>,
    s: CacheStats,
    m2: Map<Seq<char>, EntryView>,
    s2: CacheStats,
    key: Seq<char>,
    ttl_ms: u64,
    now_ms: u64,
    f: F,
    r: Result<(Vec<u8>, String), String>,
)
    requires
        get_or_compute_post(m, s, m2, s2, key, ttl_ms, now_ms, f, r),
        s.total_requests == s.cache_hits + s.cache_misses,
        s.total_requests < usize::MAX,
    ensures
        s2.total_requests == s2.cache_hits + s2.cache_misses,
        s2.etag_hits == s.etag_hits,
{
}


/// Two bodies get the same entity tag only when they have the same length
/// and the standard hasher, fed that length (as the length and as the
/// slice's length prefix) and then the body bytes, finishes on the same
/// fingerprint for both. So a body whose bytes change the hash, at any
/// length, gets a new tag.
pub proof fn lemma_etag_tracks_body(b1: Seq<u8>, b2: Seq<u8>)
    requires
        etag_of(b1) == etag_of(b2),
    ensures
        b1.len() == b2.len(),
        DefaultHasher::spec_finish(
            seq![spec_u64_to_le_bytes(b1.len() as u64), spec_u64_to_le_bytes(b1.len() as u64), b1],
        ) == DefaultHasher::spec_finish(
            seq![spec_u64_to_le_bytes(b2.len() as u64), spec_u64_to_le_bytes(b2.len() as u64), b2],
        ),
{
    reveal_strlit("W/\"");
    reveal_strlit("-");
    reveal_strlit("\"");
    let f1 = body_fingerprint(b1) as nat;
    let f2 = body_fingerprint(b2) as nat;
    lemma_hex_renders_value(f1);
    lemma_hex_renders_value(f2);
    lemma_hex_renders_value(b1.len());
    lemma_hex_renders_value(b2.len());
    let h1 = hex(f1);
    let h2 = hex(f2);
    let s1 = etag_of(b1);
    let s2 = etag_of(b2);
    assert(s1 == "W/\""@ + h1 + "-"@ + hex(b1.len()) + "\""@);
    assert(s2 == "W/\""@ + h2 + "-"@ + hex(b2.len()) + "\""@);
    if h1.len() < h2.len() {
        assert(s1[3 + h1.len() as int] == '-');
        assert(s2[3 + h1.len() as int] == h2[h1.len() as int]);
        assert(false);
    }
    if h2.len() < h1.len() {
        assert(s2[3 + h2.len() as int] == '-');
        assert(s1[3 + h2.len() as int] == h1[h2.len() as int]);
        assert(false);
    }
    assert(h1 =~= s1.subrange(3, 3 + h1.len() as int));
    assert(h2 =~= s2.subrange(3, 3 + h2.len() as int));
    lemma_hex_injective(f1, f2);
    let start: int = 4 + h1.len() as int;
    assert(hex(b1.len()) =~= s1.subrange(start, s1.len() - 1));
    assert(hex(b2.len()) =~= s2.subrange(start, s2.len() - 1));
    lemma_hex_injective(b1.len(), b2.len());
}

} // verus!
