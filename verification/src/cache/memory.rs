//! Cache lookups, the in-memory store, cache keys and disk-entry decisions.
use vstd::prelude::*;
use crate::config::business::BusinessContext;
use crate::config::policy::CachePolicy;
use crate::error::NetError;
use crate::strmap::StrMap;
use crate::text::{hex_digits, hex_string, push_char, push_str};
use crate::time::{Duration, Instant, NANOS_PER_MILLI};
use crate::types::endpoint::{origin_text, uri_text};
use crate::types::headers::header_key;
use crate::types::request::{method_label, Request, RequestView};
use crate::types::response::{Response, ResponseView};
use crate::cache::format::DiskCacheEntry;
use std::hash::{Hash, Hasher};

verus! {

/// The outcome of a cache lookup.
#[derive(Debug)]
pub enum CacheLookup {
    Hit(Response),
    Stale(Response),
    Miss,
}

/// A lookup outcome as plain values.
pub enum LookupView {
    Hit(ResponseView),
    Stale(ResponseView),
    Miss,
}

impl View for CacheLookup {
    type V = LookupView;

    open spec fn view(&self) -> LookupView {
        match self {
            CacheLookup::Hit(r) => LookupView::Hit(r@),
            CacheLookup::Stale(r) => LookupView::Stale(r@),
            CacheLookup::Miss => LookupView::Miss,
        }
    }
}

impl Clone for CacheLookup {
    fn clone(&self) -> (r: Self)
        ensures
            r@ == self@,
    {
        match self {
            CacheLookup::Hit(x) => CacheLookup::Hit(x.clone()),
            CacheLookup::Stale(x) => CacheLookup::Stale(x.clone()),
            CacheLookup::Miss => CacheLookup::Miss,
        }
    }
}

/// What the cache contributed to a request: the key, a hit, a stale entry.
#[derive(Debug)]
pub struct CacheSummary {
    pub key: Option<String>,
    pub hit: bool,
    pub stale: bool,
}

impl Default for CacheSummary {
    fn default() -> (s: Self)
        ensures
            s.key is None,
            !s.hit,
            !s.stale,
    {
        CacheSummary { key: None, hit: false, stale: false }
    }
}

impl Clone for CacheSummary {
    fn clone(&self) -> (r: Self)
        ensures
            r == *self,
    {
        CacheSummary { key: crate::config::business::copy_opt_string(&self.key), hit: self.hit, stale: self.stale }
    }
}

/// A store of responses by key, fresh for a time and then stale for a time.
pub trait CacheStore {
    fn get(&mut self, key: &str) -> Result<CacheLookup, NetError>;

    fn put(&mut self, key: String, response: Response, ttl: Duration, stale_if_error: Duration) -> Result<(), NetError>;

    fn invalidate(&mut self, key: &str) -> Result<(), NetError>;
}

/// A stored response with the instants it was stored, stops being fresh and
/// stops being usable.
#[derive(Debug)]
pub struct CacheEntry {
    pub response: Response,
    pub inserted_at: Instant,
    pub expires_at: Instant,
    pub stale_until: Instant,
}

/// What looking up an entry at `now` gives: fresh until `expires_at`, stale
/// until `stale_until`, then nothing.
pub open spec fn entry_lookup(e: CacheEntry, now: Instant) -> LookupView {
    if now.stamp() <= e.expires_at.stamp() {
        LookupView::Hit(e.response@)
    } else if now.stamp() <= e.stale_until.stamp() {
        LookupView::Stale(e.response@)
    } else {
        LookupView::Miss
    }
}

/// Whether `e` is the entry that storing `response` at `now` for `ttl`, then
/// `stale` more, creates.
pub open spec fn stored_entry(e: CacheEntry, response: ResponseView, ttl: Duration, stale: Duration, now: Instant) -> bool {
    &&& e.response@ == response
    &&& e.inserted_at == now
    &&& e.expires_at.stamp() == capped(now.stamp() + ttl.total_nanos())
    &&& e.stale_until.stamp() == capped(capped(now.stamp() + ttl.total_nanos()) + stale.total_nanos())
}

/// A sum capped at the largest instant.
pub open spec fn capped(n: nat) -> nat {
    if n <= u128::MAX { n } else { u128::MAX as nat }
}

/// A bounded in-memory response cache.
pub struct MemoryCache {
    capacity: usize,
    entries: StrMap<CacheEntry>,
}

impl MemoryCache {
    /// The stored entries by key.
    pub closed spec fn stored(&self) -> Map<Seq<char>, CacheEntry> {
        self.entries@
    }

    /// The number of entries the cache holds before it evicts.
    pub closed spec fn limit(&self) -> nat {
        if self.capacity == 0 { 1 } else { self.capacity as nat }
    }

    /// An empty cache for at most `capacity` entries (at least one).
    pub fn new(capacity: usize) -> (c: MemoryCache)
        ensures
            c.stored() == Map::<Seq<char>, CacheEntry>::empty(),
            c.limit() == if capacity == 0 { 1 } else { capacity as nat },
    {
        MemoryCache { capacity, entries: StrMap::new() }
    }

    /// Evicts the oldest entries until there is room for one more.
    fn evict_if_needed(&mut self)
        ensures
            final(self).stored().len() < final(self).limit(),
            final(self).limit() == old(self).limit(),
            final(self).stored().submap_of(old(self).stored()),
            forall|k: Seq<char>, j: Seq<char>|
                #![trigger old(self).stored().contains_key(k), final(self).stored().contains_key(j)]
                old(self).stored().contains_key(k) && !final(self).stored().contains_key(k)
                && final(self).stored().contains_key(j)
                ==> old(self).stored()[k].inserted_at.stamp() <= final(self).stored()[j].inserted_at.stamp(),
    {
        let limit: usize = if self.capacity == 0 { 1 } else { self.capacity };
        let ghost start = self.stored();
        let ghost mut floor: nat = 0;
        proof {
            self.entries.lemma_finite();
        }
        while self.entries.len() >= limit
            invariant
                limit as nat == self.limit(),
                self.stored().submap_of(start),
                self.stored().dom().finite(),
                forall|k: Seq<char>| #[trigger] start.contains_key(k) && !self.stored().contains_key(k)
                    ==> start[k].inserted_at.stamp() <= floor,
                forall|j: Seq<char>| #[trigger] self.stored().contains_key(j)
                    ==> floor <= self.stored()[j].inserted_at.stamp(),
            decreases self.stored().len(),
        {
            let entries = self.entries.entries();
            let mut best: usize = 0;
            let mut i: usize = 1;
            proof {
                crate::strmap::lemma_entry_in_map(entries@, 0);
            }
            while i < entries.len()
                invariant
                    1 <= i <= entries@.len(),
                    best < entries@.len(),
                    forall|j: int| 0 <= j < i ==> entries@[best as int].1.inserted_at.stamp() <= #[trigger] entries@[j].1.inserted_at.stamp(),
                decreases entries.len() - i,
            {
                if entries[i].1.inserted_at.as_nanos() < entries[best].1.inserted_at.as_nanos() {
                    best = i;
                }
                i = i + 1;
            }
            let key = entries[best].0.clone();
            let ghost removed = entries@[best as int].1;
            proof {
                crate::strmap::lemma_entry_in_map(entries@, best as int);
                assert forall|j: Seq<char>| #[trigger] self.stored().contains_key(j)
                    implies removed.inserted_at.stamp() <= self.stored()[j].inserted_at.stamp() by {
                    let t = choose|t: int| 0 <= t < entries@.len() && entries@[t].0@ == j;
                    crate::strmap::lemma_entry_in_map(entries@, t);
                }
            }
            let ghost before = self.stored();
            let _ = self.entries.remove(key.as_str());
            proof {
                self.entries.lemma_finite();
                assert(before.contains_key(key@));
                floor = removed.inserted_at.stamp();
                assert forall|k: Seq<char>| #[trigger] start.contains_key(k) && !self.stored().contains_key(k)
                    implies start[k].inserted_at.stamp() <= floor by {
                    if before.contains_key(k) {
                        assert(k == key@);
                    }
                }
            }
        }
    }

    /// Looks `key` up at `now`; an entry past its stale deadline is dropped.
    pub fn get_at(&mut self, key: &str, now: Instant) -> (r: CacheLookup)
        ensures
            match old(self).stored().get(key@) {
                Some(e) => r@ == entry_lookup(e, now),
                None => r is Miss,
            },
            r is Miss ==> final(self).stored() == old(self).stored().remove(key@),
            !(r is Miss) ==> final(self).stored() == old(self).stored(),
            final(self).limit() == old(self).limit(),
    {
        let found = match self.entries.get(key) {
            Some(entry) => {
                if now.not_after(&entry.expires_at) {
                    Some(CacheLookup::Hit(entry.response.clone()))
                } else if now.not_after(&entry.stale_until) {
                    Some(CacheLookup::Stale(entry.response.clone()))
                } else {
                    None
                }
            },
            None => {
                proof {
                    assert(self.stored().remove(key@) =~= self.stored());
                }
                return CacheLookup::Miss;
            },
        };
        match found {
            Some(r) => r,
            None => {
                let _ = self.entries.remove(key);
                CacheLookup::Miss
            },
        }
    }

    /// Stores `response` under `key` at `now`, fresh for `ttl` and then stale
    /// for `stale_if_error`, after evicting the oldest entries if full.
    pub fn put_at(&mut self, key: String, response: Response, ttl: Duration, stale_if_error: Duration, now: Instant)
        ensures
            final(self).stored().contains_key(key@),
            stored_entry(final(self).stored()[key@], response@, ttl, stale_if_error, now),
            final(self).stored().len() <= final(self).limit(),
            final(self).limit() == old(self).limit(),
            forall|k: Seq<char>| k != key@ && #[trigger] final(self).stored().contains_key(k)
                ==> old(self).stored().contains_key(k) && final(self).stored()[k] == old(self).stored()[k],
    {
        self.evict_if_needed();
        let expires_at = now.later_by(&ttl);
        let stale_until = expires_at.later_by(&stale_if_error);
        let ghost before = self.stored();
        proof {
            self.entries.lemma_finite();
        }
        let _ = self.entries.insert(key, CacheEntry { response, inserted_at: now, expires_at, stale_until });
        proof {
            self.entries.lemma_finite();
            assert(self.stored().dom() =~= before.dom().insert(key@));
            if before.contains_key(key@) {
                assert(self.stored() =~= before.insert(key@, self.stored()[key@]));
                assert(self.stored().len() == before.len());
            } else {
                assert(self.stored().len() == before.len() + 1);
            }
        }
    }

    /// Drops the entry under `key`.
    pub fn remove_key(&mut self, key: &str)
        ensures
            final(self).stored() == old(self).stored().remove(key@),
            final(self).limit() == old(self).limit(),
    {
        let _ = self.entries.remove(key);
    }
}

impl CacheStore for MemoryCache {
    /// Looks `key` up at the current time.
    fn get(&mut self, key: &str) -> (r: Result<CacheLookup, NetError>)
        ensures
            r matches Ok(l) && match old(self).stored().get(key@) {
                Some(e) => match l@ {
                    LookupView::Hit(x) => x == e.response@,
                    LookupView::Stale(x) => x == e.response@,
                    LookupView::Miss => final(self).stored() == old(self).stored().remove(key@),
                },
                None => l is Miss,
            },
    {
        let now = Instant::now();
        Ok(self.get_at(key, now))
    }

    /// Stores `response` under `key` at the current time.
    fn put(&mut self, key: String, response: Response, ttl: Duration, stale_if_error: Duration) -> (r: Result<(), NetError>)
        ensures
            r is Ok,
            final(self).stored().contains_key(key@),
            final(self).stored()[key@].response@ == response@,
            exists|now: Instant| #[trigger] stored_entry(final(self).stored()[key@], response@, ttl, stale_if_error, now),
            final(self).stored().len() <= final(self).limit(),
    {
        let now = Instant::now();
        self.put_at(key, response, ttl, stale_if_error, now);
        assert(stored_entry(self.stored()[key@], response@, ttl, stale_if_error, now));
        Ok(())
    }

    /// Drops the entry under `key`.
    fn invalidate(&mut self, key: &str) -> (r: Result<(), NetError>)
        ensures
            r is Ok,
            final(self).stored() == old(self).stored().remove(key@),
    {
        self.remove_key(key);
        Ok(())
    }
}

impl Default for MemoryCache {
    fn default() -> (c: Self)
        ensures
            c.stored() == Map::<Seq<char>, CacheEntry>::empty(),
            c.limit() == 1024,
    {
        MemoryCache::new(1_024)
    }
}

/// Reading back what was stored: right after `put_at` stores a response at
/// `t0`, a lookup at any `t1` no later than `t0 + ttl` is a hit on that response.
pub proof fn lemma_read_after_write(e: CacheEntry, response: ResponseView, ttl: Duration, stale: Duration, t0: Instant, t1: Instant)
    requires
        stored_entry(e, response, ttl, stale, t0),
        t1.stamp() <= t0.stamp() + ttl.total_nanos(),
    ensures
        entry_lookup(e, t1) == LookupView::Hit(response),
{
    t1.lemma_bounded();
}

/// A lookup never becomes fresh again: once stale at `t1`, an entry is stale
/// or gone at every later `t2`.
pub proof fn lemma_staleness_monotone(e: CacheEntry, t1: Instant, t2: Instant)
    requires
        t1.stamp() <= t2.stamp(),
        !(entry_lookup(e, t1) is Hit),
    ensures
        !(entry_lookup(e, t2) is Hit),
        entry_lookup(e, t1) is Miss ==> entry_lookup(e, t2) is Miss,
{
}

/// `name=value` for each varying header (value empty when absent), joined with `&`.
pub open spec fn vary_text(names: Seq<String>, headers: Map<Seq<char>, Seq<char>>) -> Seq<char>
    decreases names.len(),
{
    if names.len() == 0 {
        Seq::empty()
    } else {
        let prev = vary_text(names.drop_last(), headers);
        let n = names.last()@;
        let v = if headers.contains_key(header_key(n)) { headers[header_key(n)] } else { Seq::empty() };
        (if names.len() == 1 { prev } else { prev + seq!['&'] }) + n + seq!['='] + v
    }
}

/// The cache key: namespace, method, origin, path with query and varying
/// headers, separated by `|`. The namespace is the profile's cache namespace,
/// or else the business application.
pub open spec fn cache_key_text(r: RequestView, app: Seq<char>, vary: Seq<String>) -> Seq<char> {
    let ns = match r.business_profile {
        Some(p) => match p.cache_namespace {
            Some(n) => n,
            None => app,
        },
        None => app,
    };
    ns + seq!['|'] + method_label(r.method) + seq!['|'] + origin_text(r.endpoint) + seq!['|']
        + uri_text(r.endpoint) + seq!['|'] + vary_text(vary, r.headers)
}

/// The key under which a response to `request` is cached.
pub fn build_cache_key(request: &Request, business: &BusinessContext, policy: &CachePolicy) -> (k: String)
    ensures
        k@ == cache_key_text(request@, business.app@, policy.vary_headers@),
{
    let mut k = match &request.business_profile {
        Some(p) => match &p.cache_namespace {
            Some(n) => n.clone(),
            None => business.app.clone(),
        },
        None => business.app.clone(),
    };
    push_char(&mut k, '|');
    push_str(&mut k, request.method.label());
    push_char(&mut k, '|');
    let origin = request.endpoint.origin();
    push_str(&mut k, origin.as_str());
    push_char(&mut k, '|');
    let uri = request.endpoint.uri();
    push_str(&mut k, uri.as_str());
    push_char(&mut k, '|');
    let ghost head = k@;
    let names = &policy.vary_headers;
    let mut i: usize = 0;
    while i < names.len()
        invariant
            i <= names@.len(),
            k@ == head + vary_text(names@.take(i as int), request@.headers),
        decreases names.len() - i,
    {
        if i > 0 {
            push_char(&mut k, '&');
        }
        push_str(&mut k, names[i].as_str());
        push_char(&mut k, '=');
        match request.headers.get(names[i].as_str()) {
            Some(v) => push_str(&mut k, v),
            None => {},
        }
        proof {
            assert(names@.take(i + 1).drop_last() =~= names@.take(i as int));
            assert(k@ =~= head + vary_text(names@.take(i + 1), request@.headers));
        }
        i = i + 1;
    }
    assert(names@.take(names@.len() as int) =~= names@);
    k
}

/// What a disk entry gives at `now_ms`: fresh until its expiry, stale until
/// its stale deadline, then nothing (and the file is removed).
pub open spec fn disk_lookup(e: DiskCacheEntry, now_ms: u64) -> LookupView {
    if now_ms <= e.expires_at_ms {
        LookupView::Hit(e.response@)
    } else if now_ms <= e.stale_until_ms {
        LookupView::Stale(e.response@)
    } else {
        LookupView::Miss
    }
}

/// Classifies a disk entry read at `now_ms`.
pub fn classify_disk_entry(entry: DiskCacheEntry, now_ms: u64) -> (r: CacheLookup)
    ensures
        r@ == disk_lookup(entry, now_ms),
{
    if now_ms <= entry.expires_at_ms {
        CacheLookup::Hit(entry.response)
    } else if now_ms <= entry.stale_until_ms {
        CacheLookup::Stale(entry.response)
    } else {
        CacheLookup::Miss
    }
}

/// Milliseconds of a span truncated to 64 bits, as `as_millis() as u64` gives.
pub open spec fn millis_u64(d: Duration) -> u64 {
    d.total_millis() as u64
}

/// The disk entry for `response` stored at `now_ms`.
pub fn disk_entry(response: Response, now_ms: u64, ttl: Duration, stale_if_error: Duration) -> (e: DiskCacheEntry)
    requires
        ttl.total_nanos() + stale_if_error.total_nanos() <= u128::MAX,
        now_ms + millis_u64(ttl) <= u64::MAX,
        now_ms + ((ttl.total_nanos() + stale_if_error.total_nanos()) / (NANOS_PER_MILLI as nat)) as u64 <= u64::MAX,
    ensures
        e.response@ == response@,
        e.expires_at_ms == now_ms + millis_u64(ttl),
        e.stale_until_ms == now_ms + ((ttl.total_nanos() + stale_if_error.total_nanos()) / (NANOS_PER_MILLI as nat)) as u64,
{
    let total = ttl.saturating_add(&stale_if_error);
    let a = ttl.as_millis() as u64;
    let b = total.as_millis() as u64;
    DiskCacheEntry { response, expires_at_ms: now_ms + a, stale_until_ms: now_ms + b }
}

pub uninterp spec fn key_digest(key: Seq<char>) -> u64;

/// The 64-bit digest of a key under std's `DefaultHasher` (SipHash with fixed
/// keys): a function of the key alone for a given build of std.
#[verifier::external_body]
fn digest_key(key: &str) -> (d: u64)
    ensures
        d == key_digest(key@),
{
    let mut hasher = std::collections::hash_map::DefaultHasher::new();
    key.hash(&mut hasher);
    hasher.finish()
}

/// The file name of a key's entry: sixteen hex digits of its digest and `.cache`.
pub fn cache_file_name(key: &str) -> (r: String)
    ensures
        r@ == hex_digits(key_digest(key@) as nat, 16) + ".cache"@,
{
    let d = digest_key(key);
    let mut r = hex_string(d, 16);
    push_str(&mut r, ".cache");
    r
}

} // verus!
