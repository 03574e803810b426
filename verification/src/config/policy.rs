//! Cache, DNS, CDN, retry, circuit-breaker, auth, resume and rate-limit policies.
use vstd::prelude::*;
use std::collections::BTreeSet;
use crate::time::{Duration, NANOS_PER_MILLI};
use crate::config::business::{copy_strings, texts};

verus! {

broadcast use vstd::laws_cmp::group_laws_cmp, vstd::std_specs::btree::group_btree_axioms;

/// How the response cache is used.
#[derive(Debug, Clone, Copy, PartialEq, Eq, Structural)]
pub enum CacheMode {
    Disabled,
    Standard,
    Refresh,
    OnlyIfCached,
}

/// Response caching: mode, freshness, stale window, varying headers, capacity
/// and the statuses worth storing.
#[derive(Debug)]
pub struct CachePolicy {
    pub mode: CacheMode,
    pub default_ttl: Duration,
    pub stale_if_error: Duration,
    pub vary_headers: Vec<String>,
    pub max_entries: usize,
    pub cacheable_statuses: BTreeSet<u16>,
}

/// A set holding exactly the given statuses.
fn status_set(statuses: &[u16]) -> (s: BTreeSet<u16>)
    ensures
        s@ == statuses@.to_set(),
{
    let mut s = BTreeSet::new();
    let mut i: usize = 0;
    while i < statuses.len()
        invariant
            i <= statuses@.len(),
            s@ == statuses@.take(i as int).to_set(),
        decreases statuses.len() - i,
    {
        s.insert(statuses[i]);
        assert(statuses@.take(i + 1) =~= statuses@.take(i as int).push(statuses@[i as int]));
        proof {
            statuses@.take(i as int).lemma_push_to_set_commute(statuses@[i as int]);
        }
        i = i + 1;
    }
    assert(statuses@.take(statuses@.len() as int) =~= statuses@);
    s
}

impl CachePolicy {
    /// Whether the cache takes part at all.
    pub fn enabled(&self) -> (r: bool)
        ensures
            r == (self.mode != CacheMode::Disabled),
    {
        !matches!(self.mode, CacheMode::Disabled)
    }

    /// Whether a response with `status` may be stored.
    pub fn should_store_status(&self, status: u16) -> (r: bool)
        ensures
            r == self.cacheable_statuses@.contains(status),
    {
        self.cacheable_statuses.contains(&status)
    }
}

impl Clone for CachePolicy {
    fn clone(&self) -> (r: Self)
        ensures
            r.mode == self.mode,
            r.default_ttl == self.default_ttl,
            r.stale_if_error == self.stale_if_error,
            r.vary_headers@ == self.vary_headers@,
            r.max_entries == self.max_entries,
            r.cacheable_statuses@ == self.cacheable_statuses@,
    {
        CachePolicy {
            mode: self.mode,
            default_ttl: self.default_ttl,
            stale_if_error: self.stale_if_error,
            vary_headers: copy_strings(&self.vary_headers),
            max_entries: self.max_entries,
            cacheable_statuses: self.cacheable_statuses.clone(),
        }
    }
}

impl Default for CachePolicy {
    fn default() -> (p: Self)
        ensures
            p.mode == CacheMode::Standard,
            p.default_ttl.total_nanos() == 30 * 1_000_000_000,
            p.stale_if_error.total_nanos() == 10 * 1_000_000_000,
            texts(p.vary_headers@) == seq!["accept"@, "accept-language"@],
            p.max_entries == 1024,
            p.cacheable_statuses@ == set![200u16, 203u16, 204u16, 206u16],
    {
        let statuses = status_set(&[200, 203, 204, 206]);
        let mut vary: Vec<String> = Vec::new();
        vary.push("accept".to_owned());
        vary.push("accept-language".to_owned());
        proof {
            let a = seq![200u16, 203u16, 204u16, 206u16];
            assert(a.to_set() =~= set![200u16, 203u16, 204u16, 206u16]) by {
                assert(a[0] == 200u16 && a[1] == 203u16 && a[2] == 204u16 && a[3] == 206u16);
            }
            assert(texts(vary@) =~= seq!["accept"@, "accept-language"@]);
        }
        CachePolicy {
            mode: CacheMode::Standard,
            default_ttl: Duration::from_secs(30),
            stale_if_error: Duration::from_secs(10),
            vary_headers: vary,
            max_entries: 1_024,
            cacheable_statuses: statuses,
        }
    }
}

/// How resolved addresses are ordered.
#[derive(Debug, Clone, Copy, PartialEq, Eq, Structural)]
pub enum DnsSelectionStrategy {
    RoundRobin,
    RegionFirst,
    PrimaryOnly,
}

/// Name resolution: IPv6 preference, TTL floor, ordering strategy, retry.
#[derive(Debug, Clone, Copy)]
pub struct DnsPolicy {
    pub prefer_ipv6: bool,
    pub ttl_floor: Duration,
    pub strategy: DnsSelectionStrategy,
    pub retry_on_resolve_error: bool,
}

impl Default for DnsPolicy {
    fn default() -> (p: Self)
        ensures
            !p.prefer_ipv6,
            p.ttl_floor.total_nanos() == 5 * 1_000_000_000,
            p.strategy == DnsSelectionStrategy::RoundRobin,
            p.retry_on_resolve_error,
    {
        DnsPolicy {
            prefer_ipv6: false,
            ttl_floor: Duration::from_secs(5),
            strategy: DnsSelectionStrategy::RoundRobin,
            retry_on_resolve_error: true,
        }
    }
}

/// How an edge node is chosen.
#[derive(Debug, Clone, Copy, PartialEq, Eq, Structural)]
pub enum CdnStrategy {
    Disabled,
    Weighted,
    RegionAffinity,
}

/// CDN routing: strategy, origin fallback, region stickiness.
#[derive(Debug, Clone, Copy)]
pub struct CdnPolicy {
    pub strategy: CdnStrategy,
    pub fallback_to_origin: bool,
    pub sticky_by_region: bool,
}

impl Default for CdnPolicy {
    fn default() -> (p: Self)
        ensures
            p.strategy == CdnStrategy::Weighted,
            p.fallback_to_origin,
            p.sticky_by_region,
    {
        CdnPolicy { strategy: CdnStrategy::Weighted, fallback_to_origin: true, sticky_by_region: true }
    }
}

/// Retries: attempt limit, exponential backoff bounds, retryable statuses.
#[derive(Debug)]
pub struct RetryPolicy {
    pub max_attempts: usize,
    pub initial_backoff: Duration,
    pub max_backoff: Duration,
    pub retryable_statuses: BTreeSet<u16>,
}

/// `2^k`.
pub open spec fn power_of_two(k: nat) -> nat
    decreases k,
{
    if k == 0 { 1 } else { 2 * power_of_two((k - 1) as nat) }
}

/// `2u32.saturating_pow(k)`.
pub open spec fn doubling_factor(k: nat) -> nat {
    if k >= 32 { u32::MAX as nat } else { power_of_two(k) }
}

/// The wait before retrying after attempt `attempt`, in milliseconds: the
/// initial backoff doubled once per earlier attempt (the exponent taken modulo
/// 2^32 as the `as u32` conversion does, the factor saturating at `u32::MAX`),
/// capped at the maximum backoff, then truncated to 64 bits.
pub open spec fn backoff_millis(initial_ms: nat, max_ms: nat, attempt: nat) -> u64 {
    let k = (if attempt >= 1 { attempt - 1 } else { 0 }) % 0x1_0000_0000;
    let product = initial_ms * doubling_factor(k as nat);
    let millis = if product > u128::MAX { u128::MAX as nat } else { product };
    let capped = if millis < max_ms { millis } else { max_ms };
    capped as u64
}

proof fn lemma_power_monotone(a: nat, b: nat)
    requires
        a <= b,
    ensures
        1 <= power_of_two(a) <= power_of_two(b),
    decreases b,
{
    if b > a {
        lemma_power_monotone(a, (b - 1) as nat);
    } else if a > 0 {
        lemma_power_monotone((a - 1) as nat, (a - 1) as nat);
    }
}

proof fn lemma_power_30()
    ensures
        power_of_two(30) == 0x4000_0000,
{
    reveal_with_fuel(power_of_two, 31);
}

/// `2u32.saturating_pow(k)`.
fn doubling(k: u32) -> (r: u32)
    ensures
        r == doubling_factor(k as nat),
{
    if k >= 32 {
        return u32::MAX;
    }
    let mut r: u32 = 1;
    let mut i: u32 = 0;
    while i < k
        invariant
            i <= k <= 31,
            r == power_of_two(i as nat),
        decreases k - i,
    {
        proof {
            lemma_power_monotone(i as nat, 30);
            lemma_power_30();
        }
        r = r * 2;
        i = i + 1;
    }
    r
}

impl RetryPolicy {
    /// The wait before the retry that follows attempt `attempt`.
    pub fn backoff_for(&self, attempt: usize) -> (d: Duration)
        ensures
            d.total_nanos() == backoff_millis(
                self.initial_backoff.total_millis(),
                self.max_backoff.total_millis(),
                attempt as nat,
            ) * NANOS_PER_MILLI,
    {
        let k: u32 = if attempt >= 1 { (((attempt - 1) as u64) % 0x1_0000_0000) as u32 } else { 0 };
        let multiplier = doubling(k);
        let initial = self.initial_backoff.as_millis();
        let millis: u128 = match initial.checked_mul(multiplier as u128) {
            Some(m) => m,
            None => u128::MAX,
        };
        let max = self.max_backoff.as_millis();
        let capped = if millis < max { millis } else { max };
        Duration::from_millis(capped as u64)
    }

    /// Whether a response with `status` is retried.
    pub fn should_retry_status(&self, status: u16) -> (r: bool)
        ensures
            r == self.retryable_statuses@.contains(status),
    {
        self.retryable_statuses.contains(&status)
    }
}

impl Clone for RetryPolicy {
    fn clone(&self) -> (r: Self)
        ensures
            r.max_attempts == self.max_attempts,
            r.initial_backoff == self.initial_backoff,
            r.max_backoff == self.max_backoff,
            r.retryable_statuses@ == self.retryable_statuses@,
    {
        RetryPolicy {
            max_attempts: self.max_attempts,
            initial_backoff: self.initial_backoff,
            max_backoff: self.max_backoff,
            retryable_statuses: self.retryable_statuses.clone(),
        }
    }
}

impl Default for RetryPolicy {
    fn default() -> (p: Self)
        ensures
            p.max_attempts == 3,
            p.initial_backoff.total_nanos() == 50 * NANOS_PER_MILLI,
            p.max_backoff.total_nanos() == 500 * NANOS_PER_MILLI,
            p.retryable_statuses@ == set![408u16, 409u16, 425u16, 429u16, 500u16, 502u16, 503u16, 504u16],
    {
        let statuses = status_set(&[408, 409, 425, 429, 500, 502, 503, 504]);
        proof {
            let a = seq![408u16, 409u16, 425u16, 429u16, 500u16, 502u16, 503u16, 504u16];
            assert(a.to_set() =~= set![408u16, 409u16, 425u16, 429u16, 500u16, 502u16, 503u16, 504u16]) by {
                assert(a[0] == 408u16 && a[1] == 409u16 && a[2] == 425u16 && a[3] == 429u16);
                assert(a[4] == 500u16 && a[5] == 502u16 && a[6] == 503u16 && a[7] == 504u16);
            }
        }
        RetryPolicy {
            max_attempts: 3,
            initial_backoff: Duration::from_millis(50),
            max_backoff: Duration::from_millis(500),
            retryable_statuses: statuses,
        }
    }
}

/// Circuit breaking: failures before opening, cooldown, half-open permits.
#[derive(Debug, Clone, Copy)]
pub struct CircuitBreakerPolicy {
    pub failure_threshold: usize,
    pub open_window: Duration,
    pub half_open_permits: usize,
}

impl Default for CircuitBreakerPolicy {
    fn default() -> (p: Self)
        ensures
            p.failure_threshold == 5,
            p.open_window.total_nanos() == 10 * 1_000_000_000,
            p.half_open_permits == 1,
    {
        CircuitBreakerPolicy { failure_threshold: 5, open_window: Duration::from_secs(10), half_open_permits: 1 }
    }
}

/// Authentication: default scope, whether a chain is required, trace forwarding.
#[derive(Debug)]
pub struct AuthPolicy {
    pub default_scope: String,
    pub required: bool,
    pub forward_trace_headers: bool,
}

impl Clone for AuthPolicy {
    fn clone(&self) -> (r: Self)
        ensures
            r == *self,
    {
        AuthPolicy {
            default_scope: self.default_scope.clone(),
            required: self.required,
            forward_trace_headers: self.forward_trace_headers,
        }
    }
}

impl Default for AuthPolicy {
    fn default() -> (p: Self)
        ensures
            p.default_scope@ == "default"@,
            !p.required,
            p.forward_trace_headers,
    {
        AuthPolicy { default_scope: "default".to_owned(), required: false, forward_trace_headers: true }
    }
}

/// Resumable transfers: on/off, chunk size, parallelism, ETag checks.
#[derive(Debug, Clone, Copy)]
pub struct ResumePolicy {
    pub enabled: bool,
    pub chunk_size: usize,
    pub parallelism: usize,
    pub verify_etag: bool,
}

impl Default for ResumePolicy {
    fn default() -> (p: Self)
        ensures
            p.enabled,
            p.chunk_size == 256 * 1024,
            p.parallelism == 4,
            p.verify_etag,
    {
        ResumePolicy { enabled: true, chunk_size: 256 * 1024, parallelism: 4, verify_etag: true }
    }
}

/// Rate limiting: in-flight cap, token rate, burst.
#[derive(Debug, Clone, Copy)]
pub struct RateLimitPolicy {
    pub max_in_flight: usize,
    pub tokens_per_second: usize,
    pub burst: usize,
}

impl Default for RateLimitPolicy {
    fn default() -> (p: Self)
        ensures
            p.max_in_flight == 128,
            p.tokens_per_second == 256,
            p.burst == 512,
    {
        RateLimitPolicy { max_in_flight: 128, tokens_per_second: 256, burst: 512 }
    }
}

} // verus!

verus! {

proof fn lemma_doubling_monotone(a: nat, b: nat)
    requires
        a <= b,
    ensures
        1 <= doubling_factor(a) <= doubling_factor(b),
{
    if b < 32 {
        lemma_power_monotone(a, b);
    } else if a < 32 {
        lemma_power_monotone(a, 31);
        assert(power_of_two(31) == 0x8000_0000) by {
            reveal_with_fuel(power_of_two, 32);
        }
    }
}

/// The first retry waits the initial backoff, or the maximum if that is smaller.
pub proof fn lemma_first_backoff(initial_ms: nat, max_ms: nat)
    requires
        initial_ms <= u128::MAX,
        max_ms <= u64::MAX,
    ensures
        backoff_millis(initial_ms, max_ms, 1) == if initial_ms < max_ms { initial_ms } else { max_ms },
{
    assert(power_of_two(0) == 1);
    assert(doubling_factor(0) == 1);
    assert((0int % 0x1_0000_0000) == 0);
    assert(initial_ms * 1 == initial_ms);
}

/// No wait exceeds the maximum backoff.
pub proof fn lemma_backoff_capped(initial_ms: nat, max_ms: nat, attempt: nat)
    requires
        max_ms <= u64::MAX,
    ensures
        backoff_millis(initial_ms, max_ms, attempt) <= max_ms,
{
}

/// Waits never shrink from one attempt to a later one (while the attempt
/// count stays within 32 bits).
pub proof fn lemma_backoff_monotone(initial_ms: nat, max_ms: nat, a: nat, b: nat)
    requires
        max_ms <= u64::MAX,
        1 <= a <= b <= 0x1_0000_0000,
    ensures
        backoff_millis(initial_ms, max_ms, a) <= backoff_millis(initial_ms, max_ms, b),
{
    let ka = ((a - 1) % 0x1_0000_0000) as nat;
    let kb = ((b - 1) % 0x1_0000_0000) as nat;
    assert(ka == a - 1 && kb == b - 1);
    lemma_doubling_monotone(ka, kb);
    let fa = doubling_factor(ka);
    let fb = doubling_factor(kb);
    assert(initial_ms * fa <= initial_ms * fb) by (nonlinear_arith)
        requires
            fa <= fb,
    ;
}

} // verus!
