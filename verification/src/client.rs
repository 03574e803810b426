//! The client: runs a request through headers, middleware, signing, the
//! cache, CDN routing, resolution and the attempts of the retry policy.
use vstd::prelude::*;
use crate::auth::{missing_chain_text, slot_names, Authenticator};
use crate::cache::memory::{
    build_cache_key, cache_key_text, entry_lookup, lemma_read_after_write, stored_entry, CacheEntry, CacheLookup, CacheStore, LookupView,
    MemoryCache,
};
use crate::cdn::{direct_decision, CdnDecision, CdnRouter, DirectCdnRouter};
use crate::circuit::CircuitBreaker;
use crate::config::business::{copy_strings, texts, BusinessContext};
use crate::config::policy::{backoff_millis, CacheMode, CdnPolicy, CircuitBreakerPolicy, DnsPolicy, RetryPolicy};
use crate::config::runtime::RuntimeOptions;
use crate::dns::{DnsRecord, PassthroughResolver, ResolvedAddress, Resolver};
use crate::error::NetError;
use crate::middleware::{Middleware, MiddlewareContext};
use crate::observability::{event_views, ClientEvent, EventLevel, EventSink, EventView, ExecutionReport};
use crate::pipeline::{
    cache_only_text, effective_scope, prepared_headers, address_for_attempt, address_index, apply_rewrites, attempt_budget, attempts_exhausted, auth_scope_for, cache_phase, download_range,
    error_step, numbered_text, prepare_headers, retry_on_status, served_from_cache, stamp_response,
    upload_range, CachePhase, ErrorStep, download_range_text, upload_range_text,
};
use crate::text::{push_str, u128_decimal, u64_decimal};
use crate::time::{Duration, Instant, NANOS_PER_MILLI};
use crate::transfer::{
    is_plan, next_checkpoint, opt_checkpoint, CheckpointView, DownloadOutcome, DownloadRequest, MemoryResumeStore,
    ResumableTransferManager, ResumeCheckpoint, ResumeStore, TransferChunk, TransferSpec, UploadOutcome,
    UploadRequest,
};
use crate::transport::{StaticResponseTransport, Transport, TransportContext};
use crate::types::body::{Body, BodyView};
use crate::types::endpoint::{opt_text, url_text, Endpoint};
use crate::types::headers::header_key;
use crate::types::request::{cacheable_method, request_id, request_id_text, HttpMethod, Request, RequestView};
use crate::types::response::{fresh_response, success_status, Response, ResponseView};

verus! {

/// A response and the report of how it was obtained.
#[derive(Debug)]
pub struct ResponseEnvelope {
    pub response: Response,
    pub report: ExecutionReport,
}

/// A registered middleware, with the name it reported when it was registered.
struct Hook {
    name: String,
    middleware: Box<dyn Middleware>,
}

impl Hook {
    /// The name the middleware goes by in events.
    spec fn label(&self) -> Seq<char> {
        self.name@
    }

    fn new<M: Middleware + 'static>(middleware: M) -> Hook {
        let name = middleware.name().to_owned();
        let boxed: Box<dyn Middleware> = Box::new(middleware);
        Hook { name, middleware: boxed }
    }
}

/// The names of registered middleware, in order.
spec fn hook_labels(hooks: Seq<Hook>) -> Seq<Seq<char>> {
    hooks.map_values(|h: Hook| h.label())
}

/// `seg` holds one `stage` event for each of the middleware `names`, in
/// order, each saying the middleware `what`.
pub open spec fn named_hook_events(seg: Seq<EventView>, names: Seq<Seq<char>>, stage: Seq<char>, what: Seq<char>) -> bool {
    &&& seg.len() == names.len()
    &&& forall|j: int| 0 <= j < seg.len() ==> (#[trigger] seg[j]).stage == stage
        && seg[j].message == "middleware `"@ + names[j] + "` "@ + what
}

/// Just before the last of `events`, one response-stage event for each of
/// the middleware `names`, in order: the answer passed through them all.
pub open spec fn responses_hooked_last(events: Seq<EventView>, names: Seq<Seq<char>>) -> bool {
    &&& names.len() + 1 <= events.len()
    &&& named_hook_events(events.subrange(events.len() - 1 - names.len(), events.len() - 1), names,
        "middleware.response"@, "applied to response"@)
}

/// The message of the event recorded after the middleware `name` handled a request.
pub open spec fn request_hook_text(name: Seq<char>) -> Seq<char> {
    "middleware `"@ + name + "` "@ + "applied to request"@
}

/// Two reports that differ at most in their events.
pub open spec fn same_but_events(a: ExecutionReport, b: ExecutionReport) -> bool {
    &&& a.request_id == b.request_id
    &&& a.attempts == b.attempts
    &&& a.auth_chain@ == b.auth_chain@
    &&& a.cache == b.cache
    &&& a.resolved_ip == b.resolved_ip
    &&& a.cdn_node == b.cdn_node
    &&& a.target == b.target
    &&& a.backoffs@ == b.backoffs@
}

/// `after` is `before` with more events after them.
pub open spec fn extends(before: Seq<EventView>, after: Seq<EventView>) -> bool {
    &&& before.len() <= after.len()
    &&& after.take(before.len() as int) == before
}

proof fn lemma_extends_trans(a: Seq<EventView>, b: Seq<EventView>, c: Seq<EventView>)
    requires
        extends(a, b),
        extends(b, c),
    ensures
        extends(a, c),
{
    assert(c.take(a.len() as int) =~= c.take(b.len() as int).take(a.len() as int));
}

/// `events` open with one request-stage event for each of the middleware
/// `names`, in order.
pub open spec fn requests_hooked_first(events: Seq<EventView>, names: Seq<Seq<char>>) -> bool {
    &&& names.len() <= events.len()
    &&& forall|j: int| 0 <= j < names.len() ==> (#[trigger] events[j]).stage == "middleware.request"@
        && events[j].message == request_hook_text(names[j])
}

proof fn lemma_hooked_first_kept(a: Seq<EventView>, b: Seq<EventView>, names: Seq<Seq<char>>)
    requires
        requests_hooked_first(a, names),
        extends(a, b),
    ensures
        requests_hooked_first(b, names),
{
    assert forall|j: int| 0 <= j < names.len() implies (#[trigger] b[j]).stage == "middleware.request"@
        && b[j].message == request_hook_text(names[j]) by {
        assert(b[j] == b.take(a.len() as int)[j]);
    }
}

/// Hands `event` to the sink, if there is one, and appends it to the report;
/// a sink's error leaves the report as it was.
fn record(sink: &mut Option<Box<dyn EventSink>>, report: &mut ExecutionReport, event: ClientEvent) -> (r: Result<(), NetError>)
    ensures
        same_but_events(*old(report), *final(report)),
        r is Ok ==> event_views(final(report).events@) == event_views(old(report).events@).push(event@),
        r is Ok ==> extends(event_views(old(report).events@), event_views(final(report).events@)),
        *old(sink) is None ==> r is Ok && *final(sink) is None,
{
    match sink {
        Some(s) => {
            let copy = event.clone();
            s.record(copy)?;
        },
        None => {},
    }
    let ghost e = event@;
    report.events.push(event);
    assert(event_views(report.events@) =~= event_views(old(report).events@).push(e));
    assert(event_views(report.events@).take(event_views(old(report).events@).len() as int) =~= event_views(old(report).events@));
    Ok(())
}

/// A `Debug` event of a middleware phase: "middleware `<name>`" and `what`.
fn hook_event(stage: &str, request_id: &String, name: &str, what: &str) -> (e: ClientEvent)
    ensures
        e@ == (EventView {
            level: EventLevel::Debug,
            stage: stage@,
            request_id: request_id@,
            message: "middleware `"@ + name@ + "` "@ + what@,
            fields: Map::empty(),
        }),
{
    let mut m = "middleware `".to_owned();
    push_str(&mut m, name);
    push_str(&mut m, "` ");
    push_str(&mut m, what);
    ClientEvent::new(EventLevel::Debug, stage.to_owned(), request_id.clone(), m)
}

/// `after` is `before` followed by `n` `Debug` events of the stage `stage`.
pub open spec fn hook_events_added(before: Seq<EventView>, after: Seq<EventView>, n: nat, stage: Seq<char>) -> bool {
    &&& after.len() == before.len() + n
    &&& after.take(before.len() as int) == before
    &&& forall|j: int| before.len() <= j < after.len() ==> (#[trigger] after[j]).stage == stage && after[j].level == EventLevel::Debug
}

proof fn lemma_hook_event_pushed(before: Seq<EventView>, mid: Seq<EventView>, e: EventView, n: nat, stage: Seq<char>)
    requires
        hook_events_added(before, mid, n, stage),
        e.stage == stage,
        e.level == EventLevel::Debug,
    ensures
        hook_events_added(before, mid.push(e), n + 1, stage),
{
    assert(mid.push(e).take(before.len() as int) =~= mid.take(before.len() as int));
    assert forall|j: int| before.len() <= j < mid.push(e).len() implies (#[trigger] mid.push(e)[j]).stage == stage
        && mid.push(e)[j].level == EventLevel::Debug by {
        if j < mid.len() {
            assert(mid.push(e)[j] == mid[j]);
        }
    }
}

/// Runs every middleware's request phase in order, recording an event after each.
fn run_request_hooks(
    hooks: &Vec<Hook>,
    sink: &mut Option<Box<dyn EventSink>>,
    request: &mut Request,
    context: &MiddlewareContext<'_>,
    report: &mut ExecutionReport,
) -> (r: Result<(), NetError>)
    ensures
        same_but_events(*old(report), *final(report)),
        *old(sink) is None ==> *final(sink) is None,
        hooks@.len() == 0 ==> r is Ok && *final(request) == *old(request) && *final(report) == *old(report),
        r is Ok ==> hook_events_added(event_views(old(report).events@), event_views(final(report).events@),
            hooks@.len(), "middleware.request"@),
        r is Ok ==> forall|j: int| 0 <= j < hooks@.len() ==> (#[trigger] event_views(final(report).events@)[
            old(report).events@.len() + j]).message == request_hook_text(hooks@[j].label()),
{
    proof {
        let v = event_views(report.events@);
        assert(v.take(v.len() as int) =~= v);
    }
    let mut i: usize = 0;
    while i < hooks.len()
        invariant
            i <= hooks@.len(),
            same_but_events(*old(report), *report),
            *old(sink) is None ==> *sink is None,
            i == 0 ==> *request == *old(request) && *report == *old(report),
            hook_events_added(event_views(old(report).events@), event_views(report.events@), i as nat, "middleware.request"@),
            forall|j: int| 0 <= j < i ==> (#[trigger] event_views(report.events@)[old(report).events@.len() + j]).message
                == request_hook_text(hooks@[j].label()),
        decreases hooks.len() - i,
    {
        let hook = &hooks[i].middleware;
        hook.on_request(request, context)?;
        let e = hook_event("middleware.request", &request.id, hooks[i].name.as_str(), "applied to request");
        let ghost mid = event_views(report.events@);
        let ghost ev = e@;
        record(sink, report, e)?;
        proof {
            lemma_hook_event_pushed(event_views(old(report).events@), mid, ev, i as nat, "middleware.request"@);
            assert(ev.message == request_hook_text(hooks@[i as int].label()));
            assert forall|j: int| 0 <= j < i + 1 implies (#[trigger] event_views(report.events@)[old(report).events@.len() + j]).message
                == request_hook_text(hooks@[j].label()) by {
                if j < i {
                    assert(event_views(report.events@)[old(report).events@.len() + j] == mid[old(report).events@.len() + j]);
                }
            }
        }
        i = i + 1;
    }
    Ok(())
}

/// Runs every middleware's response phase in order, recording an event after each.
fn run_response_hooks(
    hooks: &Vec<Hook>,
    sink: &mut Option<Box<dyn EventSink>>,
    request: &Request,
    response: &mut Response,
    context: &MiddlewareContext<'_>,
    report: &mut ExecutionReport,
) -> (r: Result<(), NetError>)
    ensures
        same_but_events(*old(report), *final(report)),
        *old(sink) is None ==> *final(sink) is None,
        hooks@.len() == 0 ==> r is Ok && *final(response) == *old(response) && *final(report) == *old(report),
        r is Ok ==> hook_events_added(event_views(old(report).events@), event_views(final(report).events@),
            hooks@.len(), "middleware.response"@),
        r is Ok ==> named_hook_events(event_views(final(report).events@).subrange(old(report).events@.len() as int,
            final(report).events@.len() as int), hook_labels(hooks@), "middleware.response"@, "applied to response"@),
{
    proof {
        let v = event_views(report.events@);
        assert(v.take(v.len() as int) =~= v);
    }
    let mut i: usize = 0;
    while i < hooks.len()
        invariant
            i <= hooks@.len(),
            same_but_events(*old(report), *report),
            *old(sink) is None ==> *sink is None,
            i == 0 ==> *response == *old(response) && *report == *old(report),
            hook_events_added(event_views(old(report).events@), event_views(report.events@), i as nat, "middleware.response"@),
            named_hook_events(event_views(report.events@).subrange(old(report).events@.len() as int, report.events@.len() as int),
                hook_labels(hooks@).take(i as int), "middleware.response"@, "applied to response"@),
        decreases hooks.len() - i,
    {
        let hook = &hooks[i].middleware;
        hook.on_response(request, response, context)?;
        let e = hook_event("middleware.response", &request.id, hooks[i].name.as_str(), "applied to response");
        let ghost mid = event_views(report.events@);
        let ghost ev = e@;
        record(sink, report, e)?;
        proof {
            lemma_hook_event_pushed(event_views(old(report).events@), mid, ev, i as nat, "middleware.response"@);
            let b = old(report).events@.len() as int;
            assert(event_views(report.events@).subrange(b, report.events@.len() as int)
                =~= mid.subrange(b, mid.len() as int).push(ev));
            assert(hook_labels(hooks@).take(i + 1) =~= hook_labels(hooks@).take(i as int).push(hooks@[i as int].label()));
        }
        i = i + 1;
    }
    Ok(())
}

/// Runs every middleware's error phase in order, recording an event after each.
fn run_error_hooks(
    hooks: &Vec<Hook>,
    sink: &mut Option<Box<dyn EventSink>>,
    request: &Request,
    error: &mut NetError,
    context: &MiddlewareContext<'_>,
    report: &mut ExecutionReport,
) -> (r: Result<(), NetError>)
    ensures
        same_but_events(*old(report), *final(report)),
        *old(sink) is None ==> *final(sink) is None,
        hooks@.len() == 0 ==> r is Ok && *final(error) == *old(error) && *final(report) == *old(report),
        r is Ok ==> hook_events_added(event_views(old(report).events@), event_views(final(report).events@),
            hooks@.len(), "middleware.error"@),
{
    proof {
        let v = event_views(report.events@);
        assert(v.take(v.len() as int) =~= v);
    }
    let mut i: usize = 0;
    while i < hooks.len()
        invariant
            i <= hooks@.len(),
            same_but_events(*old(report), *report),
            *old(sink) is None ==> *sink is None,
            i == 0 ==> *error == *old(error) && *report == *old(report),
            hook_events_added(event_views(old(report).events@), event_views(report.events@), i as nat, "middleware.error"@),
        decreases hooks.len() - i,
    {
        let hook = &hooks[i].middleware;
        hook.on_error(request, error, context)?;
        let e = hook_event("middleware.error", &request.id, hooks[i].name.as_str(), "observed error");
        let ghost mid = event_views(report.events@);
        let ghost ev = e@;
        record(sink, report, e)?;
        proof {
            lemma_hook_event_pushed(event_views(old(report).events@), mid, ev, i as nat, "middleware.error"@);
        }
        i = i + 1;
    }
    Ok(())
}

/// The names of a chain joined by commas.
pub open spec fn comma_joined(names: Seq<String>) -> Seq<char>
    decreases names.len(),
{
    if names.len() == 0 {
        Seq::empty()
    } else if names.len() == 1 {
        names[0]@
    } else {
        comma_joined(names.drop_last()) + seq![','] + names.last()@
    }
}

/// The names of a chain joined by commas.
fn join_names(names: &Vec<String>) -> (r: String)
    ensures
        r@ == comma_joined(names@),
{
    let mut r = String::new();
    let mut i: usize = 0;
    while i < names.len()
        invariant
            i <= names@.len(),
            r@ == comma_joined(names@.take(i as int)),
        decreases names.len() - i,
    {
        if i > 0 {
            crate::text::push_char(&mut r, ',');
        }
        push_str(&mut r, names[i].as_str());
        proof {
            assert(names@.take(i + 1).drop_last() =~= names@.take(i as int));
            if i == 0 {
                assert(comma_joined(names@.take(0)) =~= Seq::<char>::empty());
            }
        }
        i = i + 1;
    }
    assert(names@.take(names@.len() as int) =~= names@);
    r
}

/// The wait before the retry after attempt `attempt`, in nanoseconds.
pub open spec fn backoff_nanos(policy: RetryPolicy, attempt: nat) -> nat {
    (backoff_millis(policy.initial_backoff.total_millis(), policy.max_backoff.total_millis(), attempt) as nat) * (NANOS_PER_MILLI as nat)
}

/// The waits of a report follow the policy: the `i`-th is the backoff after
/// attempt `i + 1`.
pub open spec fn follows_schedule(backoffs: Seq<Duration>, policy: RetryPolicy) -> bool {
    forall|i: int| 0 <= i < backoffs.len() ==> (#[trigger] backoffs[i]).total_nanos() == backoff_nanos(policy, (i + 1) as nat)
}

/// The text of a span in whole milliseconds.
fn millis_text(d: &Duration) -> (r: String)
    ensures
        r@ == crate::text::decimal(d.total_millis()),
{
    u128_decimal(d.as_millis())
}

/// A response as the attempt that got it left it: its attempt number is the
/// report's, and it carries the request's cache key, the routing node and
/// the address the report names.
pub open spec fn answered_by_attempt(r: ResponseView, report: ExecutionReport, cache_key: Option<Seq<char>>, cdn_node: Option<Seq<char>>) -> bool {
    &&& r.metrics.attempt == report.attempts
    &&& r.provenance.cache_key == cache_key
    &&& r.provenance.cdn_node == cdn_node
    &&& r.provenance.resolved_ip == opt_text(report.resolved_ip)
    &&& r.provenance.original_endpoint is Some
    &&& r.provenance.selected_endpoint is Some
}

/// What sends a client's requests: the built-in transport that gives one
/// fixed answer, or a transport the caller gave.
enum Sender {
    Fixed(StaticResponseTransport),
    Given(Box<dyn Transport>),
}

impl Sender {
    /// The answer of the built-in transport; nothing is known of a given one.
    spec fn fixed(&self) -> Option<ResponseView> {
        match self {
            Sender::Fixed(t) => Some(t.answer()),
            Sender::Given(_) => None,
        }
    }

    fn execute(&self, request: &Request, context: &TransportContext) -> (r: Result<Response, NetError>)
        ensures
            self.fixed() matches Some(a) ==> (r matches Ok(x) && x@ == a),
    {
        match self {
            Sender::Fixed(t) => t.execute(request, context),
            Sender::Given(t) => t.execute(request, context),
        }
    }
}

/// Where a client caches responses: the built-in memory cache, or a cache
/// the caller gave.
enum CacheChoice {
    Memory(MemoryCache),
    Given(Box<dyn CacheStore>),
}

impl CacheChoice {
    /// The entries of the built-in cache; nothing is known of a given one.
    spec fn known(&self) -> Option<Map<Seq<char>, CacheEntry>> {
        match self {
            CacheChoice::Memory(m) => Some(m.stored()),
            CacheChoice::Given(_) => None,
        }
    }

    fn get(&mut self, key: &str) -> (r: Result<CacheLookup, NetError>)
        ensures
            final(self).known() is Some <==> old(self).known() is Some,
            old(self).known() matches Some(m) ==> (r matches Ok(l) && (!m.contains_key(key@) ==> l@ is Miss)
                && (l@ matches LookupView::Hit(x) ==> m.contains_key(key@) && x == m[key@].response@)),
    {
        match self {
            CacheChoice::Memory(m) => m.get(key),
            CacheChoice::Given(c) => c.get(key),
        }
    }

    fn put(&mut self, key: String, response: Response, ttl: Duration, stale_if_error: Duration) -> (r: Result<(), NetError>)
        ensures
            match old(self).known() {
                Some(_) => r is Ok && (final(self).known() matches Some(m) && holds_answer(m, key@, response@, ttl, stale_if_error)),
                None => final(self).known() is None,
            },
    {
        match self {
            CacheChoice::Memory(m) => m.put(key, response, ttl, stale_if_error),
            CacheChoice::Given(c) => c.put(key, response, ttl, stale_if_error),
        }
    }
}

/// How a client picks where a request goes: straight to its origin, or by a
/// router the caller gave.
enum Routing {
    Direct(DirectCdnRouter),
    Given(Box<dyn CdnRouter>),
}

impl Routing {
    /// Requests go straight to their origin.
    spec fn direct(&self) -> bool {
        self is Direct
    }

    fn route(&mut self, origin: &Endpoint, context: &BusinessContext, route_tags: &[String], policy: &CdnPolicy)
        -> (r: Result<CdnDecision, NetError>)
        ensures
            final(self).direct() == old(self).direct(),
            old(self).direct() ==> (r matches Ok(d) && d@ == direct_decision(origin@)),
    {
        match self {
            Routing::Direct(d) => d.route(origin, context, route_tags, policy),
            Routing::Given(g) => g.route(origin, context, route_tags, policy),
        }
    }
}

/// How a client resolves names: the host itself, or a resolver the caller
/// gave.
enum Naming {
    Passthrough(PassthroughResolver),
    Given(Box<dyn Resolver>),
}

impl Naming {
    /// Names resolve to themselves.
    spec fn passthrough(&self) -> bool {
        self is Passthrough
    }

    fn resolve(&mut self, endpoint: &Endpoint, context: &BusinessContext, policy: &DnsPolicy) -> (r: Result<DnsRecord, NetError>)
        ensures
            final(self).passthrough() == old(self).passthrough(),
            old(self).passthrough() ==> (r matches Ok(rec) && rec.addresses@.len() == 1
                && rec.addresses@[0].ip@ == endpoint@.host),
    {
        match self {
            Naming::Passthrough(p) => p.resolve(endpoint, context, policy),
            Naming::Given(g) => g.resolve(endpoint, context, policy),
        }
    }
}

/// `entries` hold `response` under `key`, stored with the time to live `ttl`
/// and the grace `stale`.
pub open spec fn holds_answer(entries: Map<Seq<char>, CacheEntry>, key: Seq<char>, response: ResponseView, ttl: Duration, stale: Duration) -> bool {
    &&& entries.contains_key(key)
    &&& exists|now: Instant| #[trigger] stored_entry(entries[key], response, ttl, stale, now)
}

/// What `send` stores is served back: a lookup of `key` no later than the
/// time to live after the answer was stored is a fresh hit on that answer.
pub proof fn lemma_stored_answer_is_fresh(
    entries: Map<Seq<char>, CacheEntry>,
    key: Seq<char>,
    response: ResponseView,
    ttl: Duration,
    stale: Duration,
    at: Instant,
)
    requires
        holds_answer(entries, key, response, ttl, stale),
        at.stamp() <= entries[key].inserted_at.stamp() + ttl.total_nanos(),
    ensures
        entry_lookup(entries[key], at) == LookupView::Hit(response),
{
    let now = choose|now: Instant| #[trigger] stored_entry(entries[key], response, ttl, stale, now);
    lemma_read_after_write(entries[key], response, ttl, stale, now, at);
}

/// `r` is the answer `a` as far as status, headers and payload go.
pub open spec fn carries_answer(r: ResponseView, a: ResponseView) -> bool {
    r.status == a.status && r.headers == a.headers && r.body == a.body
}

/// Everything an attempt needs besides the request.
struct Attempts<'a> {
    transport: &'a Sender,
    hooks: &'a Vec<Hook>,
    options: &'a RuntimeOptions,
    cdn: &'a CdnDecision,
    dns: &'a DnsRecord,
    cache_key: &'a Option<String>,
    stale: &'a Option<Response>,
}

/// Runs the attempts of `request`: each goes through the circuit breaker to
/// the address of its turn; a retryable status or error with attempts left
/// waits the policy's backoff and tries again; a final error falls back to a
/// stale cached response when there is one.
fn run_attempts(
    plan: &Attempts<'_>,
    circuit: &mut CircuitBreaker,
    cache: &mut CacheChoice,
    sink: &mut Option<Box<dyn EventSink>>,
    request: &Request,
    context: &MiddlewareContext<'_>,
    report: &mut ExecutionReport,
) -> (r: Result<Response, NetError>)
    requires
        old(report).backoffs@.len() == 0,
        old(report).attempts == 0,
        !old(report).cache.hit,
    ensures
        final(circuit).rules() == old(circuit).rules(),
        final(report).request_id == old(report).request_id,
        final(report).auth_chain@ == old(report).auth_chain@,
        final(report).cache.key == old(report).cache.key,
        final(report).cdn_node == old(report).cdn_node,
        follows_schedule(final(report).backoffs@, plan.options.retry),
        final(report).backoffs@.len() < attempt_budget(plan.options.retry.max_attempts),
        final(report).attempts <= attempt_budget(plan.options.retry.max_attempts),
        r is Ok && !final(report).cache.hit ==> final(report).attempts == final(report).backoffs@.len() + 1,
        r is Ok && final(report).cache.hit ==> final(report).cache.stale && plan.stale is Some,
        plan.hooks@.len() == 0 && !final(report).cache.hit ==> (r matches Ok(resp) ==> answered_by_attempt(resp@,
            *final(report), opt_text(*plan.cache_key), opt_text(plan.cdn.node_name))),
        plan.hooks@.len() == 0 && !final(report).cache.hit ==> (r matches Ok(resp) ==> (plan.transport.fixed() matches Some(a)
            ==> carries_answer(resp@, a))),
        final(cache).known() is Some <==> old(cache).known() is Some,
        plan.hooks@.len() == 0 && (plan.transport.fixed() matches Some(a) && !plan.options.retry.retryable_statuses@.contains(a.status))
            ==> (r is Ok && !final(report).cache.hit ==> final(report).attempts == 1),
        *old(sink) is None ==> *final(sink) is None,
        plan.transport.fixed() matches Some(a) ==> (plan.hooks@.len() == 0 && !plan.options.retry.retryable_statuses@.contains(a.status)
            && *old(sink) is None && old(circuit).current().opened_at is None && plan.dns.addresses@.len() > 0
            && old(cache).known() is Some ==> r is Ok && !final(report).cache.hit
            && (success_status(a.status) ==> final(circuit).current().opened_at is None)),
        r is Ok && !final(report).cache.hit ==> plan.dns.addresses@.len() > 0 && (final(report).resolved_ip matches Some(ip)
            && ip@ == plan.dns.addresses@[address_index(final(report).attempts as nat, plan.dns.addresses@.len())].ip@),
        r is Ok && !final(report).cache.hit ==> (final(report).target matches Some(t) && t@ == url_text(plan.cdn.selected@)),
        r is Ok ==> extends(event_views(old(report).events@), event_views(final(report).events@)),
        r is Ok && !final(report).cache.hit ==> responses_hooked_last(event_views(final(report).events@), hook_labels(plan.hooks@)),
        !final(report).cache.hit ==> (r matches Ok(resp) && plan.options.retry.retryable_statuses@.contains(resp.status)
            ==> final(report).attempts == attempt_budget(plan.options.retry.max_attempts)),
        old(cache).known() is Some && !final(report).cache.hit ==> (r matches Ok(resp) ==> (success_status(resp.status)
            && plan.options.cache.cacheable_statuses@.contains(resp.status) ==> (plan.cache_key matches Some(k)
            ==> (final(cache).known() matches Some(m) && holds_answer(m, k@, resp@, plan.options.cache.default_ttl,
            plan.options.cache.stale_if_error))))),
{
    let budget: usize = if plan.options.retry.max_attempts < 1 { 1 } else { plan.options.retry.max_attempts };
    let mut last_error: Option<NetError> = None;
    let mut attempt: usize = 1;
    proof {
        let v = event_views(report.events@);
        assert(v.take(v.len() as int) =~= v);
    }
    while attempt <= budget
        invariant
            budget == attempt_budget(plan.options.retry.max_attempts),
            1 <= attempt <= budget,
            circuit.rules() == old(circuit).rules(),
            report.request_id == old(report).request_id,
            report.auth_chain@ == old(report).auth_chain@,
            report.cache == old(report).cache,
            !report.cache.hit,
            report.cdn_node == old(report).cdn_node,
            follows_schedule(report.backoffs@, plan.options.retry),
            report.backoffs@.len() == attempt - 1,
            report.attempts < attempt,
            cache.known() is Some <==> old(cache).known() is Some,
            plan.hooks@.len() == 0 && (plan.transport.fixed() matches Some(a) && !plan.options.retry.retryable_statuses@.contains(a.status))
                ==> attempt == 1,
            *old(sink) is None ==> *sink is None,
            attempt == 1 ==> circuit.current() == old(circuit).current(),
            extends(event_views(old(report).events@), event_views(report.events@)),
        decreases budget + 1 - attempt,
    {
        let ghost e0 = event_views(report.events@);
        circuit.allow()?;
        let address = address_for_attempt(&plan.dns.addresses, attempt)?;
        report.resolved_ip = Some(address.ip.clone());
        report.target = Some(plan.cdn.selected.to_string());

        let message = numbered_text("starting attempt ", attempt as u64, "");
        let started = ClientEvent::new(EventLevel::Debug, "attempt".to_owned(), request.id.clone(), message)
            .field("ip".to_owned(), address.ip.clone());
        record(sink, report, started)?;
        proof { lemma_extends_trans(event_views(old(report).events@), e0, event_views(report.events@)); }
        let ghost e1 = event_views(report.events@);

        let start = Instant::now();
        let target = plan.cdn.selected.clone().with_port(Some(address.port));
        let transport_context = TransportContext { attempt, target, resolved_ip: Some(address.ip.clone()) };
        match plan.transport.execute(request, &transport_context) {
            Ok(response) => {
                let mut response = response;
                let latency = Instant::now().since(&start);
                stamp_response(&mut response, request, &transport_context, &plan.cdn.node_name, plan.cache_key, latency);
                report.attempts = attempt;
                run_response_hooks(plan.hooks, sink, request, &mut response, context, report)?;
                proof { lemma_extends_trans(event_views(old(report).events@), e1, event_views(report.events@)); }
                let ghost e2 = event_views(report.events@);
                let ghost hooked_seg = e2.subrange(e1.len() as int, e2.len() as int);
                if retry_on_status(&plan.options.retry, response.status, attempt, budget) {
                    circuit.on_failure()?;
                    let backoff = plan.options.retry.backoff_for(attempt);
                    report.backoffs.push(backoff);
                    let ms = millis_text(&backoff);
                    let note = numbered_text("retrying due to status ", response.status as u64, "");
                    let retry = ClientEvent::new(EventLevel::Warn, "retry".to_owned(), request.id.clone(), note)
                        .field("backoff_ms".to_owned(), ms);
                    record(sink, report, retry)?;
                    proof { lemma_extends_trans(event_views(old(report).events@), e2, event_views(report.events@)); }
                    last_error = Some(NetError::Transport(numbered_text("retryable response status ", response.status as u64, "")));
                } else {
                    if response.is_success() {
                        circuit.on_success()?;
                        match plan.cache_key {
                            Some(key) => {
                                if plan.options.cache.should_store_status(response.status) {
                                    let copy = response.clone();
                                    cache.put(key.clone(), copy, plan.options.cache.default_ttl, plan.options.cache.stale_if_error)?;
                                }
                            },
                            None => {},
                        }
                    } else {
                        circuit.on_failure()?;
                    }
                    let note = numbered_text("received status ", response.status as u64, "");
                    let received = ClientEvent::new(EventLevel::Info, "response".to_owned(), request.id.clone(), note)
                        .field("attempt".to_owned(), u64_decimal(attempt as u64));
                    record(sink, report, received)?;
                    proof {
                        lemma_extends_trans(event_views(old(report).events@), e2, event_views(report.events@));
                        let fin = event_views(report.events@);
                        assert(fin.subrange(fin.len() - 1 - plan.hooks@.len(), fin.len() - 1) =~= hooked_seg);
                    }
                    return Ok(response);
                }
            },
            Err(error) => {
                let mut error = error;
                run_error_hooks(plan.hooks, sink, request, &mut error, context, report)?;
                proof { lemma_extends_trans(event_views(old(report).events@), e1, event_views(report.events@)); }
                let ghost e2 = event_views(report.events@);
                circuit.on_failure()?;
                let mut note = numbered_text("attempt ", attempt as u64, " failed: ");
                let text = error.to_string();
                push_str(&mut note, text.as_str());
                let failed = ClientEvent::new(EventLevel::Warn, "transport".to_owned(), request.id.clone(), note);
                record(sink, report, failed)?;
                proof { lemma_extends_trans(event_views(old(report).events@), e2, event_views(report.events@)); }
                let ghost e3 = event_views(report.events@);
                let stale = match plan.stale {
                    Some(s) => Some(s.clone()),
                    None => None,
                };
                let previous = last_error;
                last_error = None;
                match error_step(error, attempt, budget, stale, plan.cache_key, previous) {
                    ErrorStep::Retry(e) => {
                        let backoff = plan.options.retry.backoff_for(attempt);
                        report.backoffs.push(backoff);
                        last_error = Some(e);
                    },
                    ErrorStep::ServeStale(response) => {
                        report.cache.hit = true;
                        report.cache.stale = true;
                        let fallback = ClientEvent::new(EventLevel::Warn, "cache".to_owned(), request.id.clone(),
                            "falling back to stale cache".to_owned());
                        record(sink, report, fallback)?;
                        proof { lemma_extends_trans(event_views(old(report).events@), e3, event_views(report.events@)); }
                        return Ok(response);
                    },
                    ErrorStep::Fail(e) => {
                        return Err(e);
                    },
                }
            },
        }
        attempt = attempt + 1;
    }
    Err(attempts_exhausted(budget, last_error))
}

/// The identifier a request is sent under: its own, or the `issued`-th one
/// when it has none.
pub open spec fn assigned_id(id: Seq<char>, issued: u64) -> Seq<char> {
    if id.len() == 0 { request_id_text(issued) } else { id }
}

/// The counter after one more identifier, wrapping at the top.
pub open spec fn next_issue(issued: u64) -> u64 {
    if issued == u64::MAX { 0 } else { (issued + 1) as u64 }
}

/// What the client promises of every report it returns: the attempts stay
/// within the policy's budget, the waits follow the backoff schedule, and an
/// answer from the network came from the attempt after the last wait.
pub open spec fn sound_report(report: ExecutionReport, retry: RetryPolicy) -> bool {
    &&& follows_schedule(report.backoffs@, retry)
    &&& report.backoffs@.len() < attempt_budget(retry.max_attempts)
    &&& report.attempts <= attempt_budget(retry.max_attempts)
    &&& !report.cache.hit ==> report.attempts == report.backoffs@.len() + 1
    &&& report.cache.hit && !report.cache.stale ==> report.attempts == 0 && report.backoffs@.len() == 0
}

/// The request sent for chunk `chunk` of a download: the original, resumable,
/// asking for the chunk's byte range, tagged with the transfer id.
pub open spec fn download_segment_view(r: RequestView, spec: &TransferSpec, chunk: TransferChunk) -> RequestView {
    RequestView {
        resumable: true,
        headers: r.headers.insert(header_key("range"@), download_range_text(chunk))
            .insert(header_key("x-transfer-id"@), spec.transfer_id@),
        ..r
    }
}

/// The request for chunk `chunk` of a download.
pub fn download_segment(request: &Request, spec: &TransferSpec, chunk: &TransferChunk) -> (r: Request)
    requires
        chunk.range.start < chunk.range.end,
    ensures
        r@ == download_segment_view(request@, spec, *chunk),
{
    let mut r = request.clone();
    r.resumable = true;
    r.headers.insert("range".to_owned(), download_range(chunk));
    r.headers.insert("x-transfer-id".to_owned(), spec.transfer_id.clone());
    r
}

/// The request sent for chunk `chunk` of an upload: the original, resumable,
/// carrying `body`, with its content range, the transfer id and the content
/// type when there is one.
pub open spec fn upload_segment_view(r: RequestView, spec: &TransferSpec, chunk: TransferChunk, body: BodyView) -> RequestView {
    let h = r.headers.insert(header_key("content-range"@), upload_range_text(chunk, spec.total_size))
        .insert(header_key("x-transfer-id"@), spec.transfer_id@);
    RequestView {
        resumable: true,
        body,
        headers: match spec.content_type {
            Some(t) => h.insert(header_key("content-type"@), t@),
            None => h,
        },
        ..r
    }
}

/// The request for chunk `chunk` of an upload.
pub fn upload_segment(request: &Request, spec: &TransferSpec, chunk: &TransferChunk, body: Body) -> (r: Request)
    ensures
        r@ == upload_segment_view(request@, spec, *chunk, body@),
{
    let mut r = request.clone();
    r.resumable = true;
    r.body = body;
    r.headers.insert("content-range".to_owned(), upload_range(chunk, spec.total_size));
    r.headers.insert("x-transfer-id".to_owned(), spec.transfer_id.clone());
    match &spec.content_type {
        Some(t) => r.headers.insert("content-type".to_owned(), t.clone()),
        None => {},
    }
    r
}

/// The bytes `bytes[start..end]`.
fn copy_range(bytes: &Vec<u8>, start: usize, end: usize) -> (r: Vec<u8>)
    requires
        start <= end <= bytes@.len(),
    ensures
        r@ == bytes@.subrange(start as int, end as int),
{
    let mut r: Vec<u8> = Vec::new();
    let mut i = start;
    while i < end
        invariant
            start <= i <= end <= bytes@.len(),
            r@ == bytes@.subrange(start as int, i as int),
        decreases end - i,
    {
        r.push(bytes[i]);
        assert(bytes@.subrange(start as int, i + 1) =~= bytes@.subrange(start as int, i as int).push(bytes@[i as int]));
        i = i + 1;
    }
    r
}

/// Appends `more` to `bytes`.
fn append_bytes(bytes: &mut Vec<u8>, more: &Vec<u8>)
    ensures
        final(bytes)@ == old(bytes)@ + more@,
{
    let mut i: usize = 0;
    while i < more.len()
        invariant
            i <= more@.len(),
            bytes@ == old(bytes)@ + more@.take(i as int),
        decreases more.len() - i,
    {
        bytes.push(more[i]);
        assert(more@.take(i + 1) =~= more@.take(i as int).push(more@[i as int]));
        assert(bytes@ =~= old(bytes)@ + more@.take(i + 1));
        i = i + 1;
    }
    assert(more@.take(more@.len() as int) =~= more@);
}

/// Where a client keeps transfer checkpoints: the built-in memory store, or
/// a store the caller gave.
enum CheckpointStore {
    Memory(MemoryResumeStore),
    Given(Box<dyn ResumeStore>),
}

impl CheckpointStore {
    /// The checkpoints of the built-in store; nothing is known of a given one.
    spec fn known(&self) -> Option<Map<Seq<char>, CheckpointView>> {
        match self {
            CheckpointStore::Memory(m) => Some(m.stored()),
            CheckpointStore::Given(_) => None,
        }
    }

    fn load(&self, transfer_id: &str) -> (r: Result<Option<ResumeCheckpoint>, NetError>)
        ensures
            match self.known() {
                Some(m) => r matches Ok(found) && (found matches Some(c) ==> m.contains_key(transfer_id@)
                    && c@ == m[transfer_id@]) && (found is None <==> !m.contains_key(transfer_id@)),
                None => true,
            },
    {
        match self {
            CheckpointStore::Memory(m) => m.load(transfer_id),
            CheckpointStore::Given(g) => g.load(transfer_id),
        }
    }

    fn save(&mut self, checkpoint: ResumeCheckpoint) -> (r: Result<(), NetError>)
        ensures
            match old(self).known() {
                Some(m) => r is Ok && final(self).known() == Some(m.insert(checkpoint.transfer_id@, checkpoint@)),
                None => final(self).known() is None,
            },
    {
        match self {
            CheckpointStore::Memory(m) => m.save(checkpoint),
            CheckpointStore::Given(g) => g.save(checkpoint),
        }
    }

    fn clear(&mut self, transfer_id: &str) -> (r: Result<(), NetError>)
        ensures
            match old(self).known() {
                Some(m) => r is Ok && final(self).known() == Some(m.remove(transfer_id@)),
                None => final(self).known() is None,
            },
    {
        match self {
            CheckpointStore::Memory(m) => m.clear(transfer_id),
            CheckpointStore::Given(g) => g.clear(transfer_id),
        }
    }
}

/// The offset a transfer resumes from under stored checkpoints `m`.
pub open spec fn stored_offset(m: Map<Seq<char>, CheckpointView>, transfer_id: Seq<char>) -> u64 {
    if m.contains_key(transfer_id) { m[transfer_id].next_offset } else { 0 }
}

/// After its progress is cleared, a transfer is planned from its first byte
/// again, and the stored offsets of other transfers stay as they were.
pub proof fn lemma_cleared_transfer_starts_over(m: Map<Seq<char>, CheckpointView>, transfer_id: Seq<char>, other: Seq<char>)
    ensures
        stored_offset(m.remove(transfer_id), transfer_id) == 0,
        other != transfer_id ==> stored_offset(m.remove(transfer_id), other) == stored_offset(m, other),
{
}

/// The checkpoint stored for a transfer under `m`, if any.
pub open spec fn stored_checkpoint(m: Map<Seq<char>, CheckpointView>, transfer_id: Seq<char>) -> Option<CheckpointView> {
    if m.contains_key(transfer_id) { Some(m[transfer_id]) } else { None }
}

/// Both stores are the built-in one, or neither; and the built-in store's
/// checkpoints differ at most for the transfer `transfer_id`.
pub open spec fn same_resume_keys(
    a: Option<Map<Seq<char>, CheckpointView>>,
    b: Option<Map<Seq<char>, CheckpointView>>,
    transfer_id: Seq<char>,
) -> bool {
    match (a, b) {
        (Some(x), Some(y)) => x.remove(transfer_id) == y.remove(transfer_id),
        (None, None) => true,
        _ => false,
    }
}

/// Every part of `client` is its own: no middleware, no signer chains, direct
/// routing, names resolved to themselves, no event sink, the built-in cache,
/// and a closed circuit breaker.
pub open spec fn plain_client(client: AtlasClient) -> bool {
    &&& client.hook_count() == 0
    &&& client.auth_scopes() == Set::<Seq<char>>::empty()
    &&& client.routes_directly()
    &&& client.resolves_to_host()
    &&& !client.reports_to_sink()
    &&& client.cached() is Some
    &&& client.breaker_closed()
}

/// `client` answers every request itself and keeps doing so: its parts are
/// its own, its fixed answer is a success that is not retried, signing is not
/// required, the cache may be bypassed and checkpoints are kept in memory.
pub open spec fn runs_plainly(client: AtlasClient) -> bool {
    &&& plain_client(client)
    &&& client.fixed_answer() matches Some(a) && success_status(a.status)
        && !client.settings().retry.retryable_statuses@.contains(a.status)
    &&& !client.settings().auth.required
    &&& client.settings().cache.mode != CacheMode::OnlyIfCached
    &&& client.checkpoints() is Some
}

/// `request` as `client` prepares it before any middleware: its identifier
/// assigned and the default, user-agent, business and profile headers added.
pub open spec fn prepared_view(request: RequestView, client: AtlasClient) -> RequestView {
    RequestView {
        id: assigned_id(request.id, client.issued()),
        headers: prepared_headers(request.headers, client.settings(), client.context(), request.business_profile),
        ..request
    }
}

/// Requests sent by `client` with `method` reach its transport as they are
/// and are never answered from the cache: no middleware, no signer chains,
/// and a method that is not cached.
pub open spec fn plain_sends(client: AtlasClient, method: HttpMethod) -> bool {
    &&& client.hook_count() == 0
    &&& client.auth_scopes() == Set::<Seq<char>>::empty()
    &&& !cacheable_method(method)
}

/// The text of the error when the chunk size is zero and bytes remain.
pub open spec fn zero_chunk_text() -> Seq<char> {
    "resume chunk size is zero while bytes remain"@
}

/// Runs requests through the whole pipeline.
pub struct AtlasClient {
    options: RuntimeOptions,
    business: BusinessContext,
    authenticator: Authenticator,
    cache: CacheChoice,
    resolver: Naming,
    cdn_router: Routing,
    transport: Sender,
    event_sink: Option<Box<dyn EventSink>>,
    resume_store: CheckpointStore,
    middlewares: Vec<Hook>,
    circuit: CircuitBreaker,
    transfer_manager: ResumableTransferManager,
    issued: u64,
}

/// The request sent for `chunk` of `request`: the upload's request carrying
/// the chunk's own slice of the bytes, at the chunk's start offset.
pub open spec fn chunk_upload_view(request: &UploadRequest, chunk: TransferChunk) -> RequestView {
    upload_segment_view(request.request@, &request.spec, chunk, BodyView::Segment {
        offset: chunk.range.start,
        total_size: Some(request.spec.total_size),
        bytes: request.bytes@.subrange(chunk.range.start as int, chunk.range.end as int),
    })
}

/// The slices of `bytes` that the chunks cover, in order.
pub open spec fn chunk_slices(bytes: Seq<u8>, chunks: Seq<TransferChunk>) -> Seq<Seq<u8>> {
    Seq::new(chunks.len(), |i: int| bytes.subrange(chunks[i].range.start as int, chunks[i].range.end as int))
}

/// The slices of adjacent pieces from `start` join into one slice.
pub open spec fn adjacent_pieces(chunks: Seq<TransferChunk>, start: u64, total: u64) -> bool {
    &&& chunks.len() > 0 ==> chunks[0].range.start == start
    &&& forall|i: int| 0 <= i < chunks.len() ==> (#[trigger] chunks[i]).range.start < chunks[i].range.end
        && chunks[i].range.end <= total
    &&& forall|i: int| 1 <= i < chunks.len() ==> (#[trigger] chunks[i]).range.start == chunks[i - 1].range.end
}

proof fn lemma_slices_prefix(bytes: Seq<u8>, chunks: Seq<TransferChunk>, start: u64, total: u64, k: int)
    requires
        adjacent_pieces(chunks, start, total),
        total <= bytes.len(),
        0 < k <= chunks.len(),
    ensures
        start <= chunks[k - 1].range.start,
        joined_bytes(chunk_slices(bytes, chunks).take(k)) == bytes.subrange(start as int, chunks[k - 1].range.end as int),
    decreases k,
{
    let sl = chunk_slices(bytes, chunks);
    assert(sl.take(k).drop_last() =~= sl.take(k - 1));
    let c = chunks[k - 1];
    assert(c.range.start < c.range.end && c.range.end <= total);
    if k == 1 {
        assert(sl.take(0) =~= Seq::<Seq<u8>>::empty());
        assert(joined_bytes(sl.take(0)) == Seq::<u8>::empty());
        assert(sl.take(1).last() == sl[0]);
        assert(Seq::<u8>::empty() + sl[0] =~= sl[0]);
        assert(sl[0] =~= bytes.subrange(start as int, c.range.end as int));
    } else {
        lemma_slices_prefix(bytes, chunks, start, total, k - 1);
        let d = chunks[k - 2];
        assert(d.range.start < d.range.end);
        assert(c.range.start == d.range.end);
        assert(bytes.subrange(start as int, d.range.end as int) + sl[k - 1]
            =~= bytes.subrange(start as int, c.range.end as int));
    }
}

/// A resumed upload sends every byte still to go exactly once and in order:
/// the slices of the planned chunks, joined, are the bytes from where the
/// plan starts up to the total size (nothing when there is nothing left).
pub proof fn law_upload_slices_cover(bytes: Seq<u8>, chunks: Seq<TransferChunk>, start: u64, total: u64, size: u64)
    requires
        is_plan(chunks, start, total, size),
        total <= bytes.len(),
    ensures
        joined_bytes(chunk_slices(bytes, chunks)) == if start < total {
            bytes.subrange(start as int, total as int)
        } else {
            Seq::<u8>::empty()
        },
{
    let sl = chunk_slices(bytes, chunks);
    assert forall|i: int| 0 <= i < chunks.len() implies (#[trigger] chunks[i]).range.start < chunks[i].range.end
        && chunks[i].range.end <= total by {
        assert(chunks[i].range.end == crate::transfer::min_offset(chunks[i].range.start + size, total as int));
    }
    assert(adjacent_pieces(chunks, start, total));
    if chunks.len() > 0 {
        lemma_slices_prefix(bytes, chunks, start, total, chunks.len() as int);
        assert(sl.take(chunks.len() as int) =~= sl);
    } else {
        assert(sl =~= Seq::<Seq<u8>>::empty());
    }
}

/// The byte sequences of `bodies` one after another.
pub open spec fn joined_bytes(bodies: Seq<Seq<u8>>) -> Seq<u8>
    decreases bodies.len(),
{
    if bodies.len() == 0 { Seq::empty() } else { joined_bytes(bodies.drop_last()) + bodies.last() }
}

/// `bytes` are `count` payloads one after another, the last of them the
/// payload of `last`.
pub open spec fn payloads_of(bodies: Seq<Seq<u8>>, bytes: Seq<u8>, count: nat, last: ResponseView) -> bool {
    &&& bodies.len() == count
    &&& bytes == joined_bytes(bodies)
    &&& count > 0 ==> last.body.wire_bytes() == bodies.last()
}

/// `c` is the checkpoint taken after `chunk` of `spec`, after some earlier one.
pub open spec fn taken_after(c: ResumeCheckpoint, chunk: TransferChunk, spec: &TransferSpec) -> bool {
    exists|prev: Option<CheckpointView>| c@ == #[trigger] next_checkpoint(spec, chunk, prev)
}

/// Checkpoints line up with the chunks they follow.
pub open spec fn checkpoints_follow(chunks: Seq<TransferChunk>, checkpoints: Seq<ResumeCheckpoint>, spec: &TransferSpec) -> bool {
    &&& checkpoints.len() == chunks.len()
    &&& forall|i: int| 0 <= i < chunks.len() ==> #[trigger] taken_after(checkpoints[i], chunks[i], spec)
}

impl AtlasClient {
    /// The client's runtime options.
    pub closed spec fn settings(&self) -> RuntimeOptions {
        self.options
    }

    /// The client's business context.
    pub closed spec fn context(&self) -> BusinessContext {
        self.business
    }

    /// The chunk size transfers are planned with.
    pub closed spec fn chunk_size(&self) -> usize {
        self.transfer_manager.rules().chunk_size
    }

    /// The number the next request without an identifier gets.
    pub closed spec fn issued(&self) -> u64 {
        self.issued
    }

    /// The checkpoints of the client's built-in resume store, by transfer id;
    /// `None` when the caller gave the store.
    pub closed spec fn checkpoints(&self) -> Option<Map<Seq<char>, CheckpointView>> {
        self.resume_store.known()
    }

    /// The answer of the client's built-in transport; `None` when the caller
    /// gave the transport.
    pub closed spec fn fixed_answer(&self) -> Option<ResponseView> {
        self.transport.fixed()
    }

    /// Number of middleware the client runs.
    pub closed spec fn hook_count(&self) -> nat {
        self.middlewares@.len()
    }

    /// The names of the client's middleware, in the order they run.
    pub closed spec fn hook_names(&self) -> Seq<Seq<char>> {
        hook_labels(self.middlewares@)
    }

    /// The names of the signers the client's authenticator applies under
    /// `scope`, in order: none when the scope has no chain.
    pub closed spec fn chain_names(&self, scope: Seq<char>) -> Seq<Seq<char>> {
        if self.authenticator.scope_names().contains(scope) {
            slot_names(self.authenticator.chain(scope))
        } else {
            Seq::empty()
        }
    }

    /// The client's circuit breaker is closed.
    pub closed spec fn breaker_closed(&self) -> bool {
        self.circuit.current().opened_at is None
    }

    /// The client hands its events to a sink of the caller's.
    pub closed spec fn reports_to_sink(&self) -> bool {
        self.event_sink is Some
    }

    /// The client sends each request to its origin (no CDN router was given).
    pub closed spec fn routes_directly(&self) -> bool {
        self.cdn_router.direct()
    }

    /// The client resolves a host to itself (no resolver was given).
    pub closed spec fn resolves_to_host(&self) -> bool {
        self.resolver.passthrough()
    }

    /// The entries of the client's built-in cache, by key; `None` when the
    /// caller gave the cache.
    pub closed spec fn cached(&self) -> Option<Map<Seq<char>, CacheEntry>> {
        self.cache.known()
    }

    /// The scopes the client's authenticator has chains for.
    pub closed spec fn auth_scopes(&self) -> Set<Seq<char>> {
        self.authenticator.scope_names()
    }

    /// A builder for a client of the service `service_name`.
    pub fn builder(service_name: &str) -> (b: AtlasClientBuilder)
        ensures
            b.settings().service_name@ == service_name@,
            crate::config::runtime::default_options(b.settings()),
            b.given_context() is None,
            b.hook_count() == 0,
            b.parts() == (BuilderParts {
                authenticator: None,
                cache: false,
                resolver: false,
                cdn_router: false,
                transport: false,
                event_sink: false,
                resume_store: false,
            }),
    {
        AtlasClientBuilder::new(service_name)
    }

    /// Sends `request`: adds the default, user-agent, business and profile
    /// headers, runs the request middleware, signs it under its auth scope,
    /// answers from the cache when it may, routes it through the CDN,
    /// resolves the target and makes up to the retry budget of attempts. A
    /// success with a cacheable status is stored under the request's cache
    /// key with the policy's lifetimes. Each step is recorded in the report's
    /// events, the request middleware's first.
    #[verifier::rlimit(40)]
    pub fn send(&mut self, request: Request) -> (r: Result<ResponseEnvelope, NetError>)
        ensures
            final(self).settings() == old(self).settings(),
            final(self).context() == old(self).context(),
            final(self).chunk_size() == old(self).chunk_size(),
            final(self).issued() == if request@.id.len() == 0 { next_issue(old(self).issued()) } else { old(self).issued() },
            r matches Ok(env) ==> env.report.request_id@ == assigned_id(request@.id, old(self).issued())
                && sound_report(env.report, old(self).settings().retry),
            final(self).hook_count() == old(self).hook_count(),
            final(self).checkpoints() == old(self).checkpoints(),
            final(self).fixed_answer() == old(self).fixed_answer(),
            final(self).auth_scopes() == old(self).auth_scopes(),
            old(self).auth_scopes() == Set::<Seq<char>>::empty() ==> (r matches Ok(env) ==> env.report.auth_chain@.len() == 0),
            old(self).hook_count() == 0 ==> (r matches Ok(env) ==> (!env.report.cache.hit ==> (old(self).fixed_answer() matches Some(a)
                ==> carries_answer(env.response@, a)))),
            old(self).hook_count() == 0 ==> (r matches Ok(env) ==> (!env.report.cache.hit ==> answered_by_attempt(
                env.response@, env.report, opt_text(env.report.cache.key), opt_text(env.report.cdn_node)))),
            old(self).hook_count() == 0 && (old(self).fixed_answer() matches Some(a)
                && !old(self).settings().retry.retryable_statuses@.contains(a.status)) ==> (r matches Ok(env)
                ==> (!env.report.cache.hit ==> env.report.attempts == 1)),
            old(self).hook_count() == 0 && old(self).auth_scopes() == Set::<Seq<char>>::empty() ==> (r matches Ok(env)
                && env.report.cache.hit ==> cacheable_method(request@.method)),
            r matches Ok(env) ==> (!env.report.cache.hit && old(self).settings().retry.retryable_statuses@.contains(
                env.response.status) ==> env.report.attempts == attempt_budget(old(self).settings().retry.max_attempts)),
            !old(self).reports_to_sink() ==> !final(self).reports_to_sink(),
            runs_plainly(*old(self)) ==> r is Ok && runs_plainly(*final(self)),
            old(self).hook_count() == 0 ==> (r matches Ok(env) ==> texts(env.report.auth_chain@)
                == old(self).chain_names(effective_scope(request@, old(self).settings().auth.default_scope@))),
            old(self).fixed_answer() matches Some(a) ==> (plain_client(*old(self))
                && !old(self).settings().retry.retryable_statuses@.contains(a.status) && !old(self).settings().auth.required
                && old(self).settings().cache.mode != CacheMode::OnlyIfCached ==> r is Ok
                && (success_status(a.status) ==> final(self).breaker_closed())),
            old(self).hook_count() == 0 && old(self).auth_scopes() == Set::<Seq<char>>::empty()
                && old(self).settings().auth.required ==> (r matches Err(e) && e matches NetError::Auth(m)
                && m@ == missing_chain_text(effective_scope(request@, old(self).settings().auth.default_scope@))),
            old(self).hook_count() == 0 && old(self).auth_scopes() == Set::<Seq<char>>::empty()
                && !old(self).settings().auth.required && old(self).settings().cache.mode == CacheMode::OnlyIfCached
                && cacheable_method(request@.method) && (old(self).cached() matches Some(m) && !m.contains_key(
                cache_key_text(prepared_view(request@, *old(self)), old(self).context().app@,
                old(self).settings().cache.vary_headers@))) ==> (r matches Err(e) && e matches NetError::PolicyViolation(t)
                && t@ == cache_only_text()),
            old(self).cached() matches Some(m) ==> (old(self).hook_count() == 0 ==> (r matches Ok(env)
                ==> (env.report.cache.hit && !env.report.cache.stale ==> (env.report.cache.key matches Some(k)
                && m.contains_key(k@) && carries_answer(env.response@, m[k@].response@))))),
            r matches Ok(env) ==> (!(env.report.cache.hit && env.report.cache.stale) ==> responses_hooked_last(
                event_views(env.report.events@), old(self).hook_names())),
            r matches Ok(env) ==> requests_hooked_first(event_views(env.report.events@), old(self).hook_names()),
            final(self).routes_directly() == old(self).routes_directly(),
            final(self).resolves_to_host() == old(self).resolves_to_host(),
            old(self).routes_directly() ==> (r matches Ok(env) ==> env.report.cdn_node is None),
            old(self).hook_count() == 0 && old(self).auth_scopes() == Set::<Seq<char>>::empty() && old(self).routes_directly()
                && old(self).resolves_to_host() ==> (r matches Ok(env) ==> (!env.report.cache.hit ==> ((env.report.resolved_ip
                matches Some(ip) && ip@ == request@.endpoint.host) && (env.report.target matches Some(t)
                && t@ == url_text(request@.endpoint))))),
            final(self).cached() is Some <==> old(self).cached() is Some,
            old(self).cached() is Some ==> (r matches Ok(env) ==> (!env.report.cache.hit && success_status(env.response.status)
                && old(self).settings().cache.cacheable_statuses@.contains(env.response.status) ==> (env.report.cache.key matches Some(k)
                ==> (final(self).cached() matches Some(m) && holds_answer(m, k@, env.response@,
                old(self).settings().cache.default_ttl, old(self).settings().cache.stale_if_error))))),
    {
        let mut request = request;
        if request.id.as_str().is_empty() {
            request.id = request_id(self.issued);
            self.issued = self.issued.wrapping_add(1);
        }
        let mut report = ExecutionReport::for_request(request.id.clone());
        let context = MiddlewareContext { request_id: request.id.clone(), business: &self.business, options: &self.options };

        prepare_headers(&mut request, &self.options, &self.business);
        run_request_hooks(&self.middlewares, &mut self.event_sink, &mut request, &context, &mut report)?;
        let ghost hooked = event_views(report.events@);
        proof {
            assert forall|j: int| 0 <= j < self.middlewares@.len() implies (#[trigger] hooked[j]).stage == "middleware.request"@
                && hooked[j].message == request_hook_text(hook_labels(self.middlewares@)[j]) by {
                assert(hooked[j] == event_views(report.events@)[0 + j]);
            }
            assert(requests_hooked_first(hooked, hook_labels(self.middlewares@)));
            assert(hooked.take(hooked.len() as int) =~= hooked);
        }

        let scope = auth_scope_for(&request, &self.options.auth.default_scope);
        let chain = self.authenticator.sign(&mut request, &self.business, Some(scope.as_str()), self.options.auth.required)?;
        report.auth_chain = chain;
        if report.auth_chain.len() > 0 {
            let mut message = "applied auth chain for scope `".to_owned();
            push_str(&mut message, scope.as_str());
            push_str(&mut message, "`");
            let joined = join_names(&report.auth_chain);
            let applied = ClientEvent::new(EventLevel::Info, "auth".to_owned(), request.id.clone(), message)
                .field("scope".to_owned(), scope.clone())
                .field("chain".to_owned(), joined);
            record(&mut self.event_sink, &mut report, applied)?;
            proof { lemma_extends_trans(hooked, hooked, event_views(report.events@)); }
        }
        let ghost signed = event_views(report.events@);

        let mut cache_key: Option<String> = None;
        let mut stale: Option<Response> = None;
        if request.cacheable() && self.options.cache.enabled() {
            let key = build_cache_key(&request, &self.business, &self.options.cache);
            cache_key = Some(key.clone());
            report.cache.key = Some(key.clone());
            let lookup = self.cache.get(key.as_str())?;
            match cache_phase(self.options.cache.mode, lookup) {
                CachePhase::Serve(cached) => {
                    let mut response = served_from_cache(cached, key);
                    let ghost before_hooks = event_views(report.events@);
                    run_response_hooks(&self.middlewares, &mut self.event_sink, &request, &mut response, &context, &mut report)?;
                    proof { lemma_extends_trans(hooked, signed, event_views(report.events@)); }
                    let ghost answered = event_views(report.events@);
                    let ghost hooked_seg = answered.subrange(before_hooks.len() as int, answered.len() as int);
                    report.cache.hit = true;
                    let served = ClientEvent::new(EventLevel::Info, "cache".to_owned(), request.id.clone(),
                        "served from cache".to_owned());
                    record(&mut self.event_sink, &mut report, served)?;
                    proof {
                        let fin = event_views(report.events@);
                        assert(fin.subrange(fin.len() - 1 - self.middlewares@.len(), fin.len() - 1) =~= hooked_seg);
                        lemma_extends_trans(hooked, answered, event_views(report.events@));
                        lemma_hooked_first_kept(hooked, event_views(report.events@), hook_labels(self.middlewares@));
                    }
                    return Ok(ResponseEnvelope { response, report });
                },
                CachePhase::Proceed(kept) => {
                    if kept.is_some() {
                        report.cache.stale = true;
                    }
                    stale = kept;
                },
                CachePhase::Refuse(e) => {
                    return Err(e);
                },
            }
        }

        let route_tags: Vec<String> = match &request.business_profile {
            Some(profile) => copy_strings(&profile.route_tags),
            None => Vec::new(),
        };
        let cdn = self.cdn_router.route(&request.endpoint, &self.business, route_tags.as_slice(), &self.options.cdn)?;
        apply_rewrites(&mut request, &cdn.rewrite_headers);
        report.cdn_node = crate::config::business::copy_opt_string(&cdn.node_name);
        let routed = ClientEvent::new(EventLevel::Debug, "cdn".to_owned(), request.id.clone(), "cdn route selected".to_owned())
            .field("target".to_owned(), cdn.selected.to_string());
        record(&mut self.event_sink, &mut report, routed)?;
        proof { lemma_extends_trans(hooked, signed, event_views(report.events@)); }
        let ghost routed_events = event_views(report.events@);

        let dns = self.resolver.resolve(&cdn.selected, &self.business, &self.options.dns)?;
        let plan = Attempts {
            transport: &self.transport,
            hooks: &self.middlewares,
            options: &self.options,
            cdn: &cdn,
            dns: &dns,
            cache_key: &cache_key,
            stale: &stale,
        };
        let response = run_attempts(&plan, &mut self.circuit, &mut self.cache, &mut self.event_sink, &request, &context, &mut report)?;
        proof {
            lemma_extends_trans(hooked, routed_events, event_views(report.events@));
            lemma_hooked_first_kept(hooked, event_views(report.events@), hook_labels(self.middlewares@));
        }
        Ok(ResponseEnvelope { response, report })
    }
}

impl AtlasClient {
    /// The chunks of `spec` still to transfer, from where its stored
    /// checkpoint (if any) left off. With a chunk size of zero and bytes
    /// left there is no plan, and the request is refused as a configuration
    /// error.
    pub fn plan_transfer(&self, spec: &TransferSpec) -> (r: Result<Vec<TransferChunk>, NetError>)
        ensures
            r matches Ok(chunks) ==> exists|start: u64| #[trigger] is_plan(chunks@, start, spec.total_size, self.chunk_size() as u64),
            match self.checkpoints() {
                Some(m) => if self.chunk_size() > 0 || stored_offset(m, spec.transfer_id@) >= spec.total_size {
                    r matches Ok(chunks) && is_plan(chunks@, stored_offset(m, spec.transfer_id@), spec.total_size, self.chunk_size() as u64)
                } else {
                    r matches Err(e) && e matches NetError::InvalidConfig(msg) && msg@ == zero_chunk_text()
                },
                None => true,
            },
    {
        let checkpoint = self.resume_store.load(spec.transfer_id.as_str())?;
        let point = checkpoint.as_ref();
        let from: u64 = match point {
            Some(p) => p.next_offset,
            None => 0,
        };
        if self.transfer_manager.chunk_size() == 0 && from < spec.total_size {
            return Err(NetError::InvalidConfig("resume chunk size is zero while bytes remain".to_owned()));
        }
        let chunks = self.transfer_manager.plan(spec, point);
        let ghost start = crate::transfer::resume_offset(opt_checkpoint(point));
        assert(is_plan(chunks@, start, spec.total_size, self.chunk_size() as u64));
        let r: Result<Vec<TransferChunk>, NetError> = Ok(chunks);
        assert(r matches Ok(cs) && is_plan(cs@, start, spec.total_size, self.chunk_size() as u64));
        r
    }

    /// Records that `chunk` of `spec` is done, after the stored checkpoint,
    /// and returns the new checkpoint.
    pub fn save_transfer_progress(&mut self, spec: &TransferSpec, chunk: &TransferChunk) -> (r: Result<ResumeCheckpoint, NetError>)
        ensures
            final(self).settings() == old(self).settings(),
            final(self).context() == old(self).context(),
            final(self).chunk_size() == old(self).chunk_size(),
            final(self).issued() == old(self).issued(),
            final(self).hook_count() == old(self).hook_count(),
            final(self).fixed_answer() == old(self).fixed_answer(),
            final(self).auth_scopes() == old(self).auth_scopes(),
            runs_plainly(*old(self)) ==> runs_plainly(*final(self)),
            r matches Ok(c) ==> taken_after(c, *chunk, spec),
            match old(self).checkpoints() {
                Some(m) => r matches Ok(c) && c@ == next_checkpoint(spec, *chunk, stored_checkpoint(m, spec.transfer_id@))
                    && final(self).checkpoints() == Some(m.insert(spec.transfer_id@, c@)),
                None => final(self).checkpoints() is None,
            },
    {
        let previous = self.resume_store.load(spec.transfer_id.as_str())?;
        let point = previous.as_ref();
        let checkpoint = self.transfer_manager.checkpoint_after(spec, chunk, point);
        let ghost prev = opt_checkpoint(point);
        let copy = checkpoint.clone();
        self.resume_store.save(copy)?;
        assert(checkpoint@ == next_checkpoint(spec, *chunk, prev));
        Ok(checkpoint)
    }

    /// Forgets the stored checkpoint of `transfer_id`.
    pub fn clear_transfer_progress(&mut self, transfer_id: &str) -> (r: Result<(), NetError>)
        ensures
            final(self).settings() == old(self).settings(),
            final(self).context() == old(self).context(),
            final(self).chunk_size() == old(self).chunk_size(),
            final(self).issued() == old(self).issued(),
            final(self).hook_count() == old(self).hook_count(),
            final(self).fixed_answer() == old(self).fixed_answer(),
            final(self).auth_scopes() == old(self).auth_scopes(),
            runs_plainly(*old(self)) ==> runs_plainly(*final(self)),
            match old(self).checkpoints() {
                Some(m) => r is Ok && final(self).checkpoints() == Some(m.remove(transfer_id@)),
                None => final(self).checkpoints() is None,
            },
    {
        self.resume_store.clear(transfer_id)
    }

    /// Fetches one chunk of a download and records its checkpoint.
    fn download_chunk(&mut self, request: &DownloadRequest, chunk: &TransferChunk) -> (r: Result<(Response, Vec<u8>, ResumeCheckpoint), NetError>)
        requires
            chunk.range.start < chunk.range.end,
        ensures
            final(self).settings() == old(self).settings(),
            final(self).chunk_size() == old(self).chunk_size(),
            r matches Ok(out) ==> taken_after(out.2, *chunk, &request.spec) && out.1@ == out.0@.body.wire_bytes(),
            same_resume_keys(old(self).checkpoints(), final(self).checkpoints(), request.spec.transfer_id@),
            runs_plainly(*old(self)) ==> r is Ok && runs_plainly(*final(self)),
    {
        let segment = download_segment(&request.request, &request.spec, chunk);
        let envelope = self.send(segment)?;
        let payload = envelope.response.body.clone().into_bytes();
        let checkpoint = self.save_transfer_progress(&request.spec, chunk)?;
        proof {
            match old(self).checkpoints() {
                Some(m) => {
                    assert(m.insert(request.spec.transfer_id@, checkpoint@).remove(request.spec.transfer_id@)
                        =~= m.remove(request.spec.transfer_id@));
                },
                None => {},
            }
        }
        Ok((envelope.response, payload, checkpoint))
    }

    /// Sends one chunk of an upload and records its checkpoint.
    fn upload_chunk(&mut self, request: &UploadRequest, chunk: &TransferChunk)
        -> (r: Result<(Response, ResumeCheckpoint, Ghost<RequestView>), NetError>)
        requires
            chunk.range.start < chunk.range.end,
            chunk.range.end <= request.bytes@.len(),
        ensures
            final(self).settings() == old(self).settings(),
            final(self).chunk_size() == old(self).chunk_size(),
            r matches Ok(out) ==> taken_after(out.1, *chunk, &request.spec),
            same_resume_keys(old(self).checkpoints(), final(self).checkpoints(), request.spec.transfer_id@),
            final(self).hook_count() == old(self).hook_count(),
            final(self).fixed_answer() == old(self).fixed_answer(),
            final(self).auth_scopes() == old(self).auth_scopes(),
            plain_sends(*old(self), request.request@.method) ==> (r matches Ok(out) ==> (old(self).fixed_answer() matches Some(a)
                ==> carries_answer(out.0@, a))),
            runs_plainly(*old(self)) ==> r is Ok && runs_plainly(*final(self)),
            r matches Ok(out) ==> out.2@ == chunk_upload_view(request, *chunk),
    {
        let n = request.bytes.len();
        assert(chunk.range.end <= n);
        let first = chunk.range.start as usize;
        let end = chunk.range.end as usize;
        let piece = copy_range(&request.bytes, first, end);
        let body = self.transfer_manager.build_segment_body(chunk, piece, request.spec.total_size);
        let segment = upload_segment(&request.request, &request.spec, chunk, body);
        let ghost sent = segment@;
        let envelope = self.send(segment)?;
        let checkpoint = self.save_transfer_progress(&request.spec, chunk)?;
        proof {
            match old(self).checkpoints() {
                Some(m) => {
                    assert(m.insert(request.spec.transfer_id@, checkpoint@).remove(request.spec.transfer_id@)
                        =~= m.remove(request.spec.transfer_id@));
                },
                None => {},
            }
        }
        Ok((envelope.response, checkpoint, Ghost(sent)))
    }

    /// Downloads `request.spec` chunk by chunk from where it left off, saving
    /// a checkpoint after each chunk and clearing them at the end; the bytes
    /// are the chunk responses' payloads in order.
    pub fn download(&mut self, request: DownloadRequest) -> (r: Result<DownloadOutcome, NetError>)
        ensures
            final(self).settings() == old(self).settings(),
            final(self).chunk_size() == old(self).chunk_size(),
            r matches Ok(o) ==> {
                &&& exists|start: u64| #[trigger] is_plan(o.chunks@, start, request.spec.total_size, old(self).chunk_size() as u64)
                &&& checkpoints_follow(o.chunks@, o.checkpoints@, &request.spec)
                &&& o.chunks@.len() == 0 ==> fresh_response(204, o.final_response@)
                &&& exists|bodies: Seq<Seq<u8>>| #[trigger] payloads_of(bodies, o.bytes@, o.chunks@.len(), o.final_response@)
            },
            old(self).checkpoints() matches Some(m) ==> (stored_offset(m, request.spec.transfer_id@) >= request.spec.total_size
                ==> (r matches Ok(o) && o.chunks@.len() == 0 && o.bytes@.len() == 0)),
            runs_plainly(*old(self)) && old(self).chunk_size() > 0 ==> r is Ok,
            match old(self).checkpoints() {
                Some(m) => r matches Ok(o) ==> is_plan(o.chunks@, stored_offset(m, request.spec.transfer_id@),
                    request.spec.total_size, old(self).chunk_size() as u64)
                    && final(self).checkpoints() == Some(m.remove(request.spec.transfer_id@)),
                None => final(self).checkpoints() is None,
            },
    {
        let chunks = self.plan_transfer(&request.spec)?;
        let ghost start = choose|start: u64| #[trigger] is_plan(chunks@, start, request.spec.total_size, self.chunk_size() as u64);
        let mut bytes: Vec<u8> = Vec::new();
        let mut checkpoints: Vec<ResumeCheckpoint> = Vec::new();
        let mut last: Option<Response> = None;
        let ghost mut bodies: Seq<Seq<u8>> = Seq::empty();
        let mut i: usize = 0;
        while i < chunks.len()
            invariant
                is_plan(chunks@, start, request.spec.total_size, old(self).chunk_size() as u64),
                self.settings() == old(self).settings(),
                self.chunk_size() == old(self).chunk_size(),
                same_resume_keys(old(self).checkpoints(), self.checkpoints(), request.spec.transfer_id@),
                old(self).checkpoints() matches Some(m) ==> (chunks@.len() > 0
                    ==> stored_offset(m, request.spec.transfer_id@) < request.spec.total_size),
                runs_plainly(*old(self)) ==> runs_plainly(*self),
                i <= chunks@.len(),
                checkpoints_follow(chunks@.take(i as int), checkpoints@, &request.spec),
                i == 0 ==> last is None,
                bodies.len() == i,
                bytes@ == joined_bytes(bodies),
                i > 0 ==> (last matches Some(x) && x@.body.wire_bytes() == bodies.last()),
            decreases chunks.len() - i,
        {
            let chunk = chunks[i];
            assert(chunks@[i as int] == chunk);
            let (response, payload, checkpoint) = self.download_chunk(&request, &chunk)?;
            append_bytes(&mut bytes, &payload);
            proof {
                assert(bodies.push(payload@).drop_last() =~= bodies);
                bodies = bodies.push(payload@);
            }
            let ghost before = checkpoints@;
            checkpoints.push(checkpoint);
            proof {
                assert(chunks@.take(i + 1) =~= chunks@.take(i as int).push(chunk));
                assert forall|j: int| 0 <= j < i + 1 implies #[trigger] taken_after(checkpoints@[j], chunks@.take(i + 1)[j], &request.spec) by {
                    if j < i {
                        assert(checkpoints@[j] == before[j]);
                        assert(chunks@.take(i + 1)[j] == chunks@.take(i as int)[j]);
                    }
                }
            }
            last = Some(response);
            i = i + 1;
        }
        self.clear_transfer_progress(request.spec.transfer_id.as_str())?;
        proof {
            assert(chunks@.take(chunks@.len() as int) =~= chunks@);
        }
        let final_response = match last {
            Some(x) => x,
            None => Response::new(204),
        };
        assert(payloads_of(bodies, bytes@, chunks@.len(), final_response@));
        assert(is_plan(chunks@, start, request.spec.total_size, old(self).chunk_size() as u64));
        assert(checkpoints_follow(chunks@, checkpoints@, &request.spec));
        let o = DownloadOutcome { bytes, chunks, checkpoints, final_response };
        assert(payloads_of(bodies, o.bytes@, o.chunks@.len(), o.final_response@));
        assert(is_plan(o.chunks@, start, request.spec.total_size, old(self).chunk_size() as u64));
        Ok(o)
    }

    /// Uploads `request.bytes` chunk by chunk from where the transfer left
    /// off, each chunk as a segment payload with its content range, saving a
    /// checkpoint after each chunk and clearing them at the end.
    pub fn upload(&mut self, request: UploadRequest) -> (r: Result<UploadOutcome, NetError>)
        requires
            request.spec.total_size <= request.bytes@.len(),
        ensures
            final(self).settings() == old(self).settings(),
            final(self).chunk_size() == old(self).chunk_size(),
            r matches Ok(o) ==> {
                &&& o.uploaded_bytes == request.bytes@.len()
                &&& exists|start: u64| #[trigger] is_plan(o.chunks@, start, request.spec.total_size, old(self).chunk_size() as u64)
                &&& checkpoints_follow(o.chunks@, o.checkpoints@, &request.spec)
                &&& o.chunks@.len() == 0 ==> fresh_response(204, o.final_response@)
                &&& o.chunks@.len() > 0 && plain_sends(*old(self), request.request@.method) ==> (old(self).fixed_answer()
                    matches Some(a) ==> carries_answer(o.final_response@, a))
            },
            old(self).checkpoints() matches Some(m) ==> (stored_offset(m, request.spec.transfer_id@) >= request.spec.total_size
                ==> (r matches Ok(o) && o.chunks@.len() == 0 && o.uploaded_bytes == request.bytes@.len())),
            runs_plainly(*old(self)) && old(self).chunk_size() > 0 ==> r is Ok,
            match old(self).checkpoints() {
                Some(m) => r matches Ok(o) ==> is_plan(o.chunks@, stored_offset(m, request.spec.transfer_id@),
                    request.spec.total_size, old(self).chunk_size() as u64)
                    && final(self).checkpoints() == Some(m.remove(request.spec.transfer_id@)),
                None => final(self).checkpoints() is None,
            },
    {
        let chunks = self.plan_transfer(&request.spec)?;
        let ghost start = choose|start: u64| #[trigger] is_plan(chunks@, start, request.spec.total_size, self.chunk_size() as u64);
        let mut checkpoints: Vec<ResumeCheckpoint> = Vec::new();
        let mut last: Option<Response> = None;
        let mut i: usize = 0;
        while i < chunks.len()
            invariant
                is_plan(chunks@, start, request.spec.total_size, old(self).chunk_size() as u64),
                request.spec.total_size <= request.bytes@.len(),
                self.settings() == old(self).settings(),
                self.chunk_size() == old(self).chunk_size(),
                same_resume_keys(old(self).checkpoints(), self.checkpoints(), request.spec.transfer_id@),
                old(self).checkpoints() matches Some(m) ==> (chunks@.len() > 0
                    ==> stored_offset(m, request.spec.transfer_id@) < request.spec.total_size),
                runs_plainly(*old(self)) ==> runs_plainly(*self),
                i <= chunks@.len(),
                checkpoints_follow(chunks@.take(i as int), checkpoints@, &request.spec),
                i == 0 ==> last is None,
                self.hook_count() == old(self).hook_count(),
                self.fixed_answer() == old(self).fixed_answer(),
                self.auth_scopes() == old(self).auth_scopes(),
                i > 0 && plain_sends(*old(self), request.request@.method) ==> (old(self).fixed_answer() matches Some(a)
                    ==> (last matches Some(x) && carries_answer(x@, a))),
            decreases chunks.len() - i,
        {
            let chunk = chunks[i];
            assert(chunks@[i as int] == chunk);
            let (response, checkpoint, _sent) = self.upload_chunk(&request, &chunk)?;
            let ghost before = checkpoints@;
            checkpoints.push(checkpoint);
            proof {
                assert(chunks@.take(i + 1) =~= chunks@.take(i as int).push(chunk));
                assert forall|j: int| 0 <= j < i + 1 implies #[trigger] taken_after(checkpoints@[j], chunks@.take(i + 1)[j], &request.spec) by {
                    if j < i {
                        assert(checkpoints@[j] == before[j]);
                        assert(chunks@.take(i + 1)[j] == chunks@.take(i as int)[j]);
                    }
                }
            }
            last = Some(response);
            i = i + 1;
        }
        self.clear_transfer_progress(request.spec.transfer_id.as_str())?;
        proof {
            assert(chunks@.take(chunks@.len() as int) =~= chunks@);
        }
        let final_response = match last {
            Some(x) => x,
            None => Response::new(204),
        };
        assert(is_plan(chunks@, start, request.spec.total_size, old(self).chunk_size() as u64));
        assert(checkpoints_follow(chunks@, checkpoints@, &request.spec));
        let o = UploadOutcome { uploaded_bytes: request.bytes.len(), chunks, checkpoints, final_response };
        assert(is_plan(o.chunks@, start, request.spec.total_size, old(self).chunk_size() as u64));
        Ok(o)
    }
}

/// Puts a cache behind the pipeline's interface.
fn cache_slot<T: CacheStore + 'static>(cache: T) -> (r: Option<Box<dyn CacheStore>>)
    ensures
        r is Some,
{
    let b: Box<dyn CacheStore> = Box::new(cache);
    Some(b)
}

/// Puts a resolver behind the pipeline's interface.
fn resolver_slot<T: Resolver + 'static>(resolver: T) -> (r: Option<Box<dyn Resolver>>)
    ensures
        r is Some,
{
    let b: Box<dyn Resolver> = Box::new(resolver);
    Some(b)
}

/// Puts a CDN router behind the pipeline's interface.
fn router_slot<T: CdnRouter + 'static>(router: T) -> (r: Option<Box<dyn CdnRouter>>)
    ensures
        r is Some,
{
    let b: Box<dyn CdnRouter> = Box::new(router);
    Some(b)
}

/// Puts a transport behind the pipeline's interface.
fn transport_slot<T: Transport + 'static>(transport: T) -> (r: Option<Box<dyn Transport>>)
    ensures
        r is Some,
{
    let b: Box<dyn Transport> = Box::new(transport);
    Some(b)
}

/// Puts an event sink behind the pipeline's interface.
fn sink_slot<T: EventSink + 'static>(sink: T) -> (r: Option<Box<dyn EventSink>>)
    ensures
        r is Some,
{
    let b: Box<dyn EventSink> = Box::new(sink);
    Some(b)
}

/// Puts a resume store behind the pipeline's interface.
fn store_slot<T: ResumeStore + 'static>(store: T) -> (r: Option<Box<dyn ResumeStore>>)
    ensures
        r is Some,
{
    let b: Box<dyn ResumeStore> = Box::new(store);
    Some(b)
}

/// Which parts a builder was given: the authenticator, and whether a cache,
/// resolver, CDN router, transport, event sink and resume store were given.
pub struct BuilderParts {
    pub authenticator: Option<Authenticator>,
    pub cache: bool,
    pub resolver: bool,
    pub cdn_router: bool,
    pub transport: bool,
    pub event_sink: bool,
    pub resume_store: bool,
}

/// Collects the parts of a client; what is not given gets a default.
pub struct AtlasClientBuilder {
    options: RuntimeOptions,
    business: Option<BusinessContext>,
    authenticator: Option<Authenticator>,
    cache: Option<Box<dyn CacheStore>>,
    resolver: Option<Box<dyn Resolver>>,
    cdn_router: Option<Box<dyn CdnRouter>>,
    transport: Option<Box<dyn Transport>>,
    event_sink: Option<Box<dyn EventSink>>,
    resume_store: Option<Box<dyn ResumeStore>>,
    middlewares: Vec<Hook>,
}

impl AtlasClientBuilder {
    /// The runtime options the client gets.
    pub closed spec fn settings(&self) -> RuntimeOptions {
        self.options
    }

    /// The business context given, if any.
    pub closed spec fn given_context(&self) -> Option<BusinessContext> {
        self.business
    }

    /// Number of middleware registered.
    pub closed spec fn hook_count(&self) -> nat {
        self.middlewares@.len()
    }

    /// The names of the middleware registered, in order.
    pub closed spec fn hook_names(&self) -> Seq<Seq<char>> {
        hook_labels(self.middlewares@)
    }

    /// The parts given so far.
    pub closed spec fn parts(&self) -> BuilderParts {
        BuilderParts {
            authenticator: self.authenticator,
            cache: self.cache is Some,
            resolver: self.resolver is Some,
            cdn_router: self.cdn_router is Some,
            transport: self.transport is Some,
            event_sink: self.event_sink is Some,
            resume_store: self.resume_store is Some,
        }
    }

    /// A builder with the default options for `service_name` and nothing else.
    pub fn new(service_name: &str) -> (b: AtlasClientBuilder)
        ensures
            b.settings().service_name@ == service_name@,
            crate::config::runtime::default_options(b.settings()),
            b.given_context() is None,
            b.hook_count() == 0,
            b.parts() == (BuilderParts {
                authenticator: None,
                cache: false,
                resolver: false,
                cdn_router: false,
                transport: false,
                event_sink: false,
                resume_store: false,
            }),
    {
        AtlasClientBuilder {
            options: RuntimeOptions::new(service_name.to_owned()),
            business: None,
            authenticator: None,
            cache: None,
            resolver: None,
            cdn_router: None,
            transport: None,
            event_sink: None,
            resume_store: None,
            middlewares: Vec::new(),
        }
    }

    /// Uses `options`.
    pub fn options(self, options: RuntimeOptions) -> (b: AtlasClientBuilder)
        ensures
            b.settings() == options,
            b.given_context() == self.given_context(),
            b.hook_count() == self.hook_count(),
            b.parts() == self.parts(),
    {
        let mut b = self;
        b.options = options;
        b
    }

    /// Uses the business context `business`.
    pub fn business_context(self, business: BusinessContext) -> (b: AtlasClientBuilder)
        ensures
            b.settings() == self.settings(),
            b.given_context() == Some(business),
            b.hook_count() == self.hook_count(),
            b.parts() == self.parts(),
    {
        let mut b = self;
        b.business = Some(business);
        b
    }

    /// Uses `authenticator`.
    pub fn authenticator(self, authenticator: Authenticator) -> (b: AtlasClientBuilder)
        ensures
            b.settings() == self.settings(),
            b.given_context() == self.given_context(),
            b.hook_count() == self.hook_count(),
            b.parts() == (BuilderParts { authenticator: Some(authenticator), ..self.parts() }),
    {
        let mut b = self;
        b.authenticator = Some(authenticator);
        b
    }

    /// Uses `cache` for responses.
    pub fn cache<T: CacheStore + 'static>(self, cache: T) -> (b: AtlasClientBuilder)
        ensures
            b.settings() == self.settings(),
            b.given_context() == self.given_context(),
            b.hook_count() == self.hook_count(),
            b.parts() == (BuilderParts { cache: true, ..self.parts() }),
    {
        let mut b = self;
        b.cache = cache_slot(cache);
        b
    }

    /// Uses `resolver` for names.
    pub fn resolver<T: Resolver + 'static>(self, resolver: T) -> (b: AtlasClientBuilder)
        ensures
            b.settings() == self.settings(),
            b.given_context() == self.given_context(),
            b.hook_count() == self.hook_count(),
            b.parts() == (BuilderParts { resolver: true, ..self.parts() }),
    {
        let mut b = self;
        b.resolver = resolver_slot(resolver);
        b
    }

    /// Uses `router` for CDN routing.
    pub fn cdn_router<T: CdnRouter + 'static>(self, router: T) -> (b: AtlasClientBuilder)
        ensures
            b.settings() == self.settings(),
            b.given_context() == self.given_context(),
            b.hook_count() == self.hook_count(),
            b.parts() == (BuilderParts { cdn_router: true, ..self.parts() }),
    {
        let mut b = self;
        b.cdn_router = router_slot(router);
        b
    }

    /// Uses `transport` to send requests.
    pub fn transport<T: Transport + 'static>(self, transport: T) -> (b: AtlasClientBuilder)
        ensures
            b.settings() == self.settings(),
            b.given_context() == self.given_context(),
            b.hook_count() == self.hook_count(),
            b.parts() == (BuilderParts { transport: true, ..self.parts() }),
    {
        let mut b = self;
        b.transport = transport_slot(transport);
        b
    }

    /// Sends events to `sink`.
    pub fn event_sink<T: EventSink + 'static>(self, sink: T) -> (b: AtlasClientBuilder)
        ensures
            b.settings() == self.settings(),
            b.given_context() == self.given_context(),
            b.hook_count() == self.hook_count(),
            b.parts() == (BuilderParts { event_sink: true, ..self.parts() }),
    {
        let mut b = self;
        b.event_sink = sink_slot(sink);
        b
    }

    /// Keeps transfer checkpoints in `store`.
    pub fn resume_store<T: ResumeStore + 'static>(self, store: T) -> (b: AtlasClientBuilder)
        ensures
            b.settings() == self.settings(),
            b.given_context() == self.given_context(),
            b.hook_count() == self.hook_count(),
            b.parts() == (BuilderParts { resume_store: true, ..self.parts() }),
    {
        let mut b = self;
        b.resume_store = store_slot(store);
        b
    }

    /// Adds `middleware` after those already registered.
    pub fn middleware<T: Middleware + 'static>(self, middleware: T) -> (b: AtlasClientBuilder)
        ensures
            b.settings() == self.settings(),
            b.given_context() == self.given_context(),
            b.hook_count() == self.hook_count() + 1,
            b.hook_names().drop_last() == self.hook_names(),
            b.parts() == self.parts(),
    {
        let mut b = self;
        b.middlewares.push(Hook::new(middleware));
        assert(b.hook_names().drop_last() =~= self.hook_names());
        b
    }

    /// The client: a memory cache of the policy's size, pass-through
    /// resolution, direct routing, a transport that answers 204, checkpoints
    /// in memory and a context of the service's `default` operation, unless
    /// given; the first request without an identifier gets number one.
    pub fn build(self) -> (c: AtlasClient)
        ensures
            c.settings() == self.settings(),
            c.chunk_size() == self.settings().resume.chunk_size,
            c.issued() == 1,
            c.hook_count() == self.hook_count(),
            c.hook_names() == self.hook_names(),
            c.routes_directly() == !self.parts().cdn_router,
            c.reports_to_sink() == self.parts().event_sink,
            c.breaker_closed(),
            self.hook_count() == 0 && self.parts() == (BuilderParts {
                authenticator: None,
                cache: false,
                resolver: false,
                cdn_router: false,
                transport: false,
                event_sink: false,
                resume_store: false,
            }) && !self.settings().auth.required && self.settings().cache.mode != CacheMode::OnlyIfCached
                && !self.settings().retry.retryable_statuses@.contains(204u16) ==> runs_plainly(c),
            c.resolves_to_host() == !self.parts().resolver,
            c.cached() == if self.parts().cache { None } else { Some(Map::<Seq<char>, CacheEntry>::empty()) },
            self.parts().transport ==> c.fixed_answer() is None,
            !self.parts().transport ==> (c.fixed_answer() matches Some(a) && fresh_response(204, a)),
            c.checkpoints() == if self.parts().resume_store {
                None
            } else {
                Some(Map::<Seq<char>, CheckpointView>::empty())
            },
            c.auth_scopes() == match self.parts().authenticator {
                Some(a) => a.scope_names(),
                None => Set::<Seq<char>>::empty(),
            },
            match self.given_context() {
                Some(b) => c.context() == b,
                None => c.context().app == self.settings().service_name && c.context().operation@ == "default"@,
            },
    {
        let circuit = CircuitBreaker::new(self.options.circuit_breaker);
        let transfer_manager = ResumableTransferManager::new(self.options.resume);
        let cache = match self.cache {
            Some(c) => CacheChoice::Given(c),
            None => CacheChoice::Memory(MemoryCache::new(self.options.cache.max_entries)),
        };
        let resolver = match self.resolver {
            Some(r) => Naming::Given(r),
            None => Naming::Passthrough(PassthroughResolver),
        };
        let cdn_router = match self.cdn_router {
            Some(r) => Routing::Given(r),
            None => Routing::Direct(DirectCdnRouter),
        };
        let transport = match self.transport {
            Some(t) => Sender::Given(t),
            None => Sender::Fixed(StaticResponseTransport::new(Response::new(204))),
        };
        let resume_store = match self.resume_store {
            Some(s) => CheckpointStore::Given(s),
            None => CheckpointStore::Memory(MemoryResumeStore::new()),
        };
        let business = match self.business {
            Some(b) => b,
            None => BusinessContext::new(self.options.service_name.clone(), "default".to_owned()),
        };
        let authenticator = match self.authenticator {
            Some(a) => a,
            None => Authenticator::new(),
        };
        AtlasClient {
            options: self.options,
            business,
            authenticator,
            cache,
            resolver,
            cdn_router,
            transport,
            event_sink: self.event_sink,
            resume_store,
            middlewares: self.middlewares,
            circuit,
            transfer_manager,
            issued: 1,
        }
    }
}

} // verus!
