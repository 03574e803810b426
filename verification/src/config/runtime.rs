//! System-wide networking defaults.
use vstd::prelude::*;
use crate::config::policy::{
    AuthPolicy, CachePolicy, CdnPolicy, CircuitBreakerPolicy, DnsPolicy, RateLimitPolicy, ResumePolicy,
    RetryPolicy,
};
use crate::time::{Duration, NANOS_PER_MILLI};
use crate::config::business::texts;
use crate::config::policy::{CacheMode, CdnStrategy, DnsSelectionStrategy};
use crate::types::headers::{header_key, Headers};

verus! {

/// Service identity, default headers and every policy of the pipeline.
#[derive(Debug)]
pub struct RuntimeOptions {
    pub service_name: String,
    pub environment: String,
    pub user_agent: String,
    pub request_timeout: Duration,
    pub default_headers: Headers,
    pub retry: RetryPolicy,
    pub circuit_breaker: CircuitBreakerPolicy,
    pub cache: CachePolicy,
    pub dns: DnsPolicy,
    pub cdn: CdnPolicy,
    pub auth: AuthPolicy,
    pub resume: ResumePolicy,
    pub rate_limit: RateLimitPolicy,
}

/// The defaults every field but the service name takes: the runtime's own,
/// and each policy's default.
pub open spec fn default_options(o: RuntimeOptions) -> bool {
    &&& o.environment@ == "dev"@
    &&& o.user_agent@ == "atlas-net/0.1.0"@
    &&& o.request_timeout.total_nanos() == 10 * 1_000_000_000
    &&& o.default_headers@ == Map::<Seq<char>, Seq<char>>::empty().insert(header_key("accept"@), "application/json"@)
    &&& o.retry.max_attempts == 3
    &&& o.retry.initial_backoff.total_nanos() == 50 * NANOS_PER_MILLI
    &&& o.retry.max_backoff.total_nanos() == 500 * NANOS_PER_MILLI
    &&& o.retry.retryable_statuses@ == set![408u16, 409u16, 425u16, 429u16, 500u16, 502u16, 503u16, 504u16]
    &&& o.circuit_breaker.failure_threshold == 5
    &&& o.circuit_breaker.open_window.total_nanos() == 10 * 1_000_000_000
    &&& o.circuit_breaker.half_open_permits == 1
    &&& o.cache.mode == CacheMode::Standard
    &&& o.cache.default_ttl.total_nanos() == 30 * 1_000_000_000
    &&& o.cache.stale_if_error.total_nanos() == 10 * 1_000_000_000
    &&& texts(o.cache.vary_headers@) == seq!["accept"@, "accept-language"@]
    &&& o.cache.max_entries == 1024
    &&& o.cache.cacheable_statuses@ == set![200u16, 203u16, 204u16, 206u16]
    &&& !o.dns.prefer_ipv6
    &&& o.dns.ttl_floor.total_nanos() == 5 * 1_000_000_000
    &&& o.dns.strategy == DnsSelectionStrategy::RoundRobin
    &&& o.dns.retry_on_resolve_error
    &&& o.cdn.strategy == CdnStrategy::Weighted
    &&& o.cdn.fallback_to_origin
    &&& o.cdn.sticky_by_region
    &&& o.auth.default_scope@ == "default"@
    &&& !o.auth.required
    &&& o.auth.forward_trace_headers
    &&& o.resume.enabled
    &&& o.resume.chunk_size == 256 * 1024
    &&& o.resume.parallelism == 4
    &&& o.resume.verify_etag
    &&& o.rate_limit.max_in_flight == 128
    &&& o.rate_limit.tokens_per_second == 256
    &&& o.rate_limit.burst == 512
}

impl RuntimeOptions {
    /// Defaults for the service `service_name`.
    pub fn new(service_name: String) -> (o: RuntimeOptions)
        ensures
            o.service_name == service_name,
            default_options(o),
    {
        let mut o = RuntimeOptions::default();
        o.service_name = service_name;
        o
    }
}

impl Default for RuntimeOptions {
    fn default() -> (o: Self)
        ensures
            o.service_name@ == "atlas-net"@,
            default_options(o),
    {
        RuntimeOptions {
            service_name: "atlas-net".to_owned(),
            environment: "dev".to_owned(),
            user_agent: "atlas-net/0.1.0".to_owned(),
            request_timeout: Duration::from_secs(10),
            default_headers: Headers::new().with("accept".to_owned(), "application/json".to_owned()),
            retry: RetryPolicy::default(),
            circuit_breaker: CircuitBreakerPolicy::default(),
            cache: CachePolicy::default(),
            dns: DnsPolicy::default(),
            cdn: CdnPolicy::default(),
            auth: AuthPolicy::default(),
            resume: ResumePolicy::default(),
            rate_limit: RateLimitPolicy::default(),
        }
    }
}

} // verus!
