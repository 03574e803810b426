//! The decisions of the request pipeline, each from plain inputs and the
//! result of an outside step to what happens next.
use vstd::prelude::*;
use crate::cache::memory::{CacheLookup, LookupView};
use crate::config::business::{business_headers, copy_opt_string, BusinessContext, BusinessProfileView};
use crate::config::policy::{CacheMode, RetryPolicy};
use crate::config::runtime::RuntimeOptions;
use crate::dns::ResolvedAddress;
use crate::error::NetError;
use crate::text::{decimal, push_str, u64_decimal};
use crate::time::Duration;
use crate::transfer::TransferChunk;
use crate::transport::TransportContext;
use crate::types::endpoint::{opt_text, EndpointView};
use crate::types::headers::header_key;
use crate::types::request::{Request, RequestView};
use crate::types::response::{ProvenanceView, Response, ResponseMetrics, ResponseView};

verus! {

/// The headers a request goes out with before middleware and signing: its
/// own, then the default headers, the user agent, the business context's
/// headers and the profile's headers, later ones winning.
pub open spec fn prepared_headers(
    headers: Map<Seq<char>, Seq<char>>,
    options: RuntimeOptions,
    business: BusinessContext,
    profile: Option<BusinessProfileView>,
) -> Map<Seq<char>, Seq<char>> {
    let h = headers.union_prefer_right(options.default_headers@)
        .insert(header_key("user-agent"@), options.user_agent@)
        .union_prefer_right(business_headers(business));
    match profile {
        Some(p) => h.union_prefer_right(p.headers),
        None => h,
    }
}

/// Adds the default, user-agent, business and profile headers to `request`.
pub fn prepare_headers(request: &mut Request, options: &RuntimeOptions, business: &BusinessContext)
    ensures
        final(request)@ == (RequestView {
            headers: prepared_headers(old(request)@.headers, *options, *business, old(request)@.business_profile),
            ..old(request)@
        }),
{
    request.headers.extend(&options.default_headers);
    request.headers.insert("user-agent".to_owned(), options.user_agent.clone());
    let biz = business.headers();
    request.headers.extend(&biz);
    match &request.business_profile {
        Some(profile) => {
            let extra = profile.headers.clone();
            request.headers.extend(&extra);
        },
        None => {},
    }
}

/// `headers` with each pair of `pairs` set in order, names normalised.
pub open spec fn rewritten(headers: Map<Seq<char>, Seq<char>>, pairs: Seq<(String, String)>) -> Map<Seq<char>, Seq<char>>
    decreases pairs.len(),
{
    if pairs.len() == 0 {
        headers
    } else {
        rewritten(headers, pairs.drop_last()).insert(header_key(pairs.last().0@), pairs.last().1@)
    }
}

/// Sets the headers a routing decision rewrites, in order.
pub fn apply_rewrites(request: &mut Request, pairs: &Vec<(String, String)>)
    ensures
        final(request)@ == (RequestView { headers: rewritten(old(request)@.headers, pairs@), ..old(request)@ }),
{
    let mut i: usize = 0;
    while i < pairs.len()
        invariant
            i <= pairs@.len(),
            request@ == (RequestView { headers: rewritten(old(request)@.headers, pairs@.take(i as int)), ..old(request)@ }),
        decreases pairs.len() - i,
    {
        let (k, v) = &pairs[i];
        request.headers.insert(k.clone(), v.clone());
        assert(pairs@.take(i + 1).drop_last() =~= pairs@.take(i as int));
        i = i + 1;
    }
    assert(pairs@.take(pairs@.len() as int) =~= pairs@);
}

/// The auth scope of a request: its own, else its profile's, else the default.
pub open spec fn effective_scope(r: RequestView, default_scope: Seq<char>) -> Seq<char> {
    match r.auth_scope {
        Some(s) => s,
        None => match r.business_profile {
            Some(p) => match p.auth_scope {
                Some(s) => s,
                None => default_scope,
            },
            None => default_scope,
        },
    }
}

/// The auth scope `request` is signed under.
pub fn auth_scope_for(request: &Request, default_scope: &String) -> (s: String)
    ensures
        s@ == effective_scope(request@, default_scope@),
{
    match &request.auth_scope {
        Some(s) => s.clone(),
        None => match &request.business_profile {
            Some(p) => match &p.auth_scope {
                Some(s) => s.clone(),
                None => default_scope.clone(),
            },
            None => default_scope.clone(),
        },
    }
}

/// Which scope a request is signed under: a scope the request names itself
/// wins; without one, the scope its business profile names; without either,
/// the default. In particular a profile's scope is never passed over for the
/// default, and the default is used only when neither names a scope.
pub proof fn law_signing_scope(r: RequestView, default_scope: Seq<char>, s: Seq<char>, p: BusinessProfileView)
    ensures
        r.auth_scope == Some(s) ==> effective_scope(r, default_scope) == s,
        r.auth_scope is None && r.business_profile == Some(p) && p.auth_scope == Some(s) ==> effective_scope(r, default_scope) == s,
        r.auth_scope is None && r.business_profile == Some(p) && p.auth_scope is None ==> effective_scope(r, default_scope)
            == default_scope,
        r.auth_scope is None && r.business_profile is None ==> effective_scope(r, default_scope) == default_scope,
        effective_scope(r, default_scope) == default_scope || Some(effective_scope(r, default_scope)) == r.auth_scope
            || (r.business_profile matches Some(q) && Some(effective_scope(r, default_scope)) == q.auth_scope),
{
}

/// What the cache lookup means for the request.
#[derive(Debug)]
pub enum CachePhase {
    /// Answer with this cached response.
    Serve(Response),
    /// Go to the network, keeping a stale response to fall back on.
    Proceed(Option<Response>),
    /// Stop with this error.
    Refuse(NetError),
}

/// The text of the error when only cached responses may be used and there is none.
pub open spec fn cache_only_text() -> Seq<char> {
    "cache-only mode enabled but cache entry missing"@
}

/// A fresh entry is served unless the mode is `Refresh`; a stale one is kept
/// as a fallback; a miss stops an `OnlyIfCached` request and lets others go on.
pub fn cache_phase(mode: CacheMode, lookup: CacheLookup) -> (p: CachePhase)
    ensures
        match lookup@ {
            LookupView::Hit(r) => if mode == CacheMode::Refresh {
                p matches CachePhase::Proceed(stale) && stale is None
            } else {
                p matches CachePhase::Serve(x) && x@ == r
            },
            LookupView::Stale(r) => p matches CachePhase::Proceed(stale) && stale matches Some(x) && x@ == r,
            LookupView::Miss => if mode == CacheMode::OnlyIfCached {
                p matches CachePhase::Refuse(e) && e matches NetError::PolicyViolation(m) && m@ == cache_only_text()
            } else {
                p matches CachePhase::Proceed(stale) && stale is None
            },
        },
{
    match lookup {
        CacheLookup::Hit(response) => {
            if mode == CacheMode::Refresh {
                CachePhase::Proceed(None)
            } else {
                CachePhase::Serve(response)
            }
        },
        CacheLookup::Stale(response) => CachePhase::Proceed(Some(response)),
        CacheLookup::Miss => {
            if mode == CacheMode::OnlyIfCached {
                CachePhase::Refuse(NetError::PolicyViolation("cache-only mode enabled but cache entry missing".to_owned()))
            } else {
                CachePhase::Proceed(None)
            }
        },
    }
}

/// A cached response as served: marked as a cache hit of no attempt, with its key.
pub open spec fn served_view(r: ResponseView, key: Seq<char>) -> ResponseView {
    ResponseView {
        metrics: ResponseMetrics { cache_hit: true, attempt: 0, ..r.metrics },
        provenance: ProvenanceView { cache_key: Some(key), ..r.provenance },
        ..r
    }
}

/// Marks a fresh cached response as served under `key`.
pub fn served_from_cache(response: Response, key: String) -> (r: Response)
    ensures
        r@ == served_view(response@, key@),
{
    let mut r = response;
    r.metrics.cache_hit = true;
    r.metrics.attempt = 0;
    r.provenance.cache_key = Some(key);
    r
}

/// A stale response as served after the network failed: a cache hit, with
/// the request's cache key.
pub open spec fn stale_view(r: ResponseView, key: Option<Seq<char>>) -> ResponseView {
    ResponseView {
        metrics: ResponseMetrics { cache_hit: true, ..r.metrics },
        provenance: ProvenanceView { cache_key: key, ..r.provenance },
        ..r
    }
}

/// Marks a stale response as served under `cache_key`.
pub fn served_stale(response: Response, cache_key: &Option<String>) -> (r: Response)
    ensures
        r@ == stale_view(response@, opt_text(*cache_key)),
{
    let mut r = response;
    r.metrics.cache_hit = true;
    r.provenance.cache_key = copy_opt_string(cache_key);
    r
}

/// The number of attempts a request gets: the policy's, at least one.
pub open spec fn attempt_budget(max_attempts: usize) -> usize {
    if max_attempts < 1 { 1 } else { max_attempts }
}

/// The index of the address attempt `attempt` uses: the attempt's position,
/// or the last address once they run out.
pub open spec fn address_index(attempt: nat, count: nat) -> int {
    if attempt - 1 < count - 1 { attempt - 1 } else { count - 1 }
}

/// The text of the error when resolution gave no address.
pub open spec fn no_address_text() -> Seq<char> {
    "dns returned no usable addresses"@
}

/// The address attempt `attempt` (counted from one) connects to.
pub fn address_for_attempt(addresses: &Vec<ResolvedAddress>, attempt: usize) -> (r: Result<ResolvedAddress, NetError>)
    requires
        attempt >= 1,
    ensures
        addresses@.len() == 0 ==> (r matches Err(e) && e matches NetError::Dns(m) && m@ == no_address_text()),
        addresses@.len() > 0 ==> (r matches Ok(a) && a == addresses@[address_index(attempt as nat, addresses@.len())]),
{
    let n = addresses.len();
    if n == 0 {
        return Err(NetError::Dns("dns returned no usable addresses".to_owned()));
    }
    let i = if attempt - 1 < n - 1 { attempt - 1 } else { n - 1 };
    Ok(addresses[i].clone())
}

/// A response as delivered after attempt `context.attempt`: where it came
/// from, which attempt, how long it took and how many bytes went each way.
pub open spec fn stamped_view(
    r: ResponseView,
    request: RequestView,
    target: EndpointView,
    resolved_ip: Option<Seq<char>>,
    cdn_node: Option<Seq<char>>,
    cache_key: Option<Seq<char>>,
    attempt: usize,
    latency: Duration,
) -> ResponseView {
    ResponseView {
        provenance: ProvenanceView {
            original_endpoint: Some(request.endpoint),
            selected_endpoint: Some(target),
            resolved_ip,
            cdn_node,
            cache_key,
        },
        metrics: ResponseMetrics {
            attempt,
            latency,
            bytes_out: request.body.wire_bytes().len() as usize,
            bytes_in: r.body.wire_bytes().len() as usize,
            ..r.metrics
        },
        ..r
    }
}

/// Records provenance and metrics on a response received for `request`.
pub fn stamp_response(
    response: &mut Response,
    request: &Request,
    context: &TransportContext,
    cdn_node: &Option<String>,
    cache_key: &Option<String>,
    latency: Duration,
)
    ensures
        final(response)@ == stamped_view(old(response)@, request@, context.target@, opt_text(context.resolved_ip),
            opt_text(*cdn_node), opt_text(*cache_key), context.attempt, latency),
{
    response.provenance.original_endpoint = Some(request.endpoint.clone());
    response.provenance.selected_endpoint = Some(context.target.clone());
    response.provenance.resolved_ip = copy_opt_string(&context.resolved_ip);
    response.provenance.cdn_node = copy_opt_string(cdn_node);
    response.provenance.cache_key = copy_opt_string(cache_key);
    response.metrics.attempt = context.attempt;
    response.metrics.latency = latency;
    response.metrics.bytes_out = request.payload_len();
    response.metrics.bytes_in = response.body.len();
}

/// Whether a response with `status` after attempt `attempt` is retried: the
/// status is retryable and attempts are left.
pub fn retry_on_status(policy: &RetryPolicy, status: u16, attempt: usize, max_attempts: usize) -> (r: bool)
    ensures
        r == (policy.retryable_statuses@.contains(status) && attempt < max_attempts),
{
    policy.should_retry_status(status) && attempt < max_attempts
}

/// What follows a failed attempt.
#[derive(Debug)]
pub enum ErrorStep {
    /// Try again; this error is the last one seen.
    Retry(NetError),
    /// Answer with this stale response.
    ServeStale(Response),
    /// Stop with this error.
    Fail(NetError),
}

/// The error a request ends with when attempt `attempt` failed with `error`:
/// with an earlier retried error, the attempts ran out after that one;
/// otherwise the error itself.
pub open spec fn final_failure(error: NetError, attempt: usize, last_error: Option<NetError>) -> NetError {
    match last_error {
        Some(p) => NetError::RetryExhausted { attempts: attempt, last_error: Box::new(p) },
        None => error,
    }
}

/// After attempt `attempt` of `max_attempts` failed with `error`: a retryable
/// error with attempts left is retried; otherwise a stale response is served
/// if there is one; otherwise the request fails.
pub fn error_step(
    error: NetError,
    attempt: usize,
    max_attempts: usize,
    stale: Option<Response>,
    cache_key: &Option<String>,
    last_error: Option<NetError>,
) -> (s: ErrorStep)
    ensures
        attempt < max_attempts && crate::error::retryable(error) ==> (s matches ErrorStep::Retry(e) && e == error),
        !(attempt < max_attempts && crate::error::retryable(error)) ==> match stale {
            Some(x) => s matches ErrorStep::ServeStale(y) && y@ == stale_view(x@, opt_text(*cache_key)),
            None => s matches ErrorStep::Fail(e) && e == final_failure(error, attempt, last_error),
        },
{
    if attempt < max_attempts && error.is_retryable() {
        return ErrorStep::Retry(error);
    }
    match stale {
        Some(x) => ErrorStep::ServeStale(served_stale(x, cache_key)),
        None => match last_error {
            Some(p) => ErrorStep::Fail(NetError::retry_exhausted(attempt, p)),
            None => ErrorStep::Fail(error),
        },
    }
}

/// The error when no attempt produced an outcome.
pub fn attempts_exhausted(max_attempts: usize, last_error: Option<NetError>) -> (e: NetError)
    ensures
        match last_error {
            Some(p) => e == (NetError::RetryExhausted { attempts: max_attempts, last_error: Box::new(p) }),
            None => e matches NetError::RetryExhausted { attempts, last_error: inner } && attempts == max_attempts
                && (*inner matches NetError::Transport(m) && m@ == "request execution aborted"@),
        },
{
    match last_error {
        Some(p) => NetError::retry_exhausted(max_attempts, p),
        None => NetError::retry_exhausted(max_attempts, NetError::Transport("request execution aborted".to_owned())),
    }
}

/// `prefix`, the decimal `n`, then `suffix`.
pub fn numbered_text(prefix: &str, n: u64, suffix: &str) -> (r: String)
    ensures
        r@ == prefix@ + decimal(n as nat) + suffix@,
{
    let mut r = prefix.to_owned();
    let digits = u64_decimal(n);
    push_str(&mut r, digits.as_str());
    push_str(&mut r, suffix);
    r
}

/// The `range` header of a downloaded chunk: `bytes=<first>-<last>`.
pub open spec fn download_range_text(chunk: TransferChunk) -> Seq<char> {
    "bytes="@ + decimal(chunk.range.start as nat) + "-"@ + decimal((chunk.range.end - 1) as nat)
}

/// The `content-range` header of an uploaded chunk: `bytes <first>-<last>/<total>`.
pub open spec fn upload_range_text(chunk: TransferChunk, total: u64) -> Seq<char> {
    "bytes "@ + decimal(chunk.range.start as nat) + "-"@
        + decimal((if chunk.range.end >= 1 { chunk.range.end - 1 } else { 0 }) as nat) + "/"@ + decimal(total as nat)
}

/// The `range` header of a downloaded chunk.
pub fn download_range(chunk: &TransferChunk) -> (r: String)
    requires
        chunk.range.end >= 1,
    ensures
        r@ == download_range_text(*chunk),
{
    let mut r = numbered_text("bytes=", chunk.range.start, "-");
    let last = u64_decimal(chunk.range.end - 1);
    push_str(&mut r, last.as_str());
    r
}

/// The `content-range` header of an uploaded chunk.
pub fn upload_range(chunk: &TransferChunk, total: u64) -> (r: String)
    ensures
        r@ == upload_range_text(*chunk, total),
{
    let mut r = numbered_text("bytes ", chunk.range.start, "-");
    let last = u64_decimal(chunk.range.end.saturating_sub(1));
    push_str(&mut r, last.as_str());
    push_str(&mut r, "/");
    let t = u64_decimal(total);
    push_str(&mut r, t.as_str());
    proof {
        assert(r@ =~= upload_range_text(*chunk, total));
    }
    r
}

} // verus!
