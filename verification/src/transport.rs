//! Transports: what sends a request and gets a response.
use vstd::prelude::*;
use crate::config::business::copy_opt_string;
use crate::error::NetError;
use crate::strmap::StrMap;
use crate::text::{chars_of, push_str, u64_decimal, decimal};
use crate::time::Duration;
use crate::types::endpoint::{normalize_path, normalized_path, opt_text, Endpoint, EndpointView};
use crate::types::request::{method_label, HttpMethod, Request};
use crate::types::response::{Response, ResponseView};

verus! {

/// Where and how an attempt goes out: its number, the target and the
/// address the target resolved to.
#[derive(Debug)]
pub struct TransportContext {
    pub attempt: usize,
    pub target: Endpoint,
    pub resolved_ip: Option<String>,
}

impl Clone for TransportContext {
    fn clone(&self) -> (r: Self)
        ensures
            r.attempt == self.attempt,
            r.target@ == self.target@,
            r.resolved_ip == self.resolved_ip,
    {
        TransportContext {
            attempt: self.attempt,
            target: self.target.clone(),
            resolved_ip: copy_opt_string(&self.resolved_ip),
        }
    }
}

/// Sends a request and returns the response.
pub trait Transport {
    fn execute(&self, request: &Request, context: &TransportContext) -> Result<Response, NetError>;
}

/// Answers every request with a copy of one response.
#[derive(Debug)]
pub struct StaticResponseTransport {
    response: Response,
}

impl StaticResponseTransport {
    /// The response given.
    pub closed spec fn answer(&self) -> ResponseView {
        self.response@
    }

    /// A transport that always answers `response`.
    pub fn new(response: Response) -> (t: StaticResponseTransport)
        ensures
            t.answer() == response@,
    {
        StaticResponseTransport { response }
    }
}

impl Transport for StaticResponseTransport {
    fn execute(&self, request: &Request, context: &TransportContext) -> (r: Result<Response, NetError>)
        ensures
            r matches Ok(x) && x@ == self.answer(),
    {
        Ok(self.response.clone())
    }
}

/// Produces the response of a mocked route.
pub trait RouteHandler {
    /// The handler may be called with `request` under `context`.
    spec fn accepts(&self, request: Request, context: TransportContext) -> bool;

    /// `r` is an answer the handler may give to `request` under `context`.
    spec fn allows(&self, request: Request, context: TransportContext, r: Result<Response, NetError>) -> bool;

    fn handle(&self, request: &Request, context: &TransportContext) -> (r: Result<Response, NetError>)
        requires
            self.accepts(*request, *context),
        ensures
            self.allows(*request, *context, r);
}

impl<F: Fn(&Request, &TransportContext) -> Result<Response, NetError>> RouteHandler for F {
    open spec fn accepts(&self, request: Request, context: TransportContext) -> bool {
        call_requires(*self, (&request, &context))
    }

    open spec fn allows(&self, request: Request, context: TransportContext, r: Result<Response, NetError>) -> bool {
        call_ensures(*self, (&request, &context), r)
    }

    fn handle(&self, request: &Request, context: &TransportContext) -> (r: Result<Response, NetError>) {
        self(request, context)
    }
}

/// The key a route is kept under: method, length of the host, host and path.
pub open spec fn route_key(method: HttpMethod, host: Seq<char>, path: Seq<char>) -> Seq<char> {
    method_label(method) + " "@ + decimal(host.len()) + ":"@ + host + path
}

/// The key of a route.
fn route_key_of(method: HttpMethod, host: &str, path: &str) -> (k: String)
    ensures
        k@ == route_key(method, host@, path@),
{
    let mut k = method.label().to_owned();
    push_str(&mut k, " ");
    let n = chars_of(host).len();
    let digits = u64_decimal(n as u64);
    push_str(&mut k, digits.as_str());
    push_str(&mut k, ":");
    push_str(&mut k, host);
    push_str(&mut k, path);
    proof {
        assert(k@ =~= route_key(method, host@, path@));
    }
    k
}

/// The error for a request with no mocked route.
pub open spec fn missing_route_text(method: HttpMethod, target: EndpointView) -> Seq<char> {
    "no mock route registered for "@ + method_label(method) + " "@ + target.host + target.path
}

/// A registered route's handler.
struct Route {
    handler: Box<dyn RouteHandler>,
}

impl Route {
    fn new<F: Fn(&Request, &TransportContext) -> Result<Response, NetError> + 'static>(handler: F) -> (r: Route)
        requires
            forall|q: Request, c: TransportContext| call_requires(handler, (&q, &c)),
        ensures
            forall|q: Request, c: TransportContext| #[trigger] r.handler.accepts(q, c),
            forall|q: Request, c: TransportContext, x: Result<Response, NetError>|
                r.handler.allows(q, c, x) == call_ensures(handler, (&q, &c), x),
    {
        let boxed: Box<dyn RouteHandler> = Box::new(handler);
        Route { handler: boxed }
    }
}

/// Answers requests from handlers registered by method, host and path.
pub struct MockTransport {
    routes: StrMap<Route>,
}

impl MockTransport {
    /// Every registered handler accepts every request.
    #[verifier::type_invariant]
    spec fn handlers_total(&self) -> bool {
        forall|k: Seq<char>, q: Request, c: TransportContext|
            self.routes@.contains_key(k) ==> #[trigger] self.routes@[k].handler.accepts(q, c)
    }

    /// The keys of the registered routes.
    pub closed spec fn route_keys(&self) -> Set<Seq<char>> {
        self.routes@.dom()
    }

    /// `r` is an answer the handler registered under `key` may give to
    /// `request` under `context`.
    pub closed spec fn handler_allows(&self, key: Seq<char>, request: Request, context: TransportContext, r: Result<Response, NetError>) -> bool {
        self.routes@[key].handler.allows(request, context, r)
    }

    /// No routes.
    pub fn new() -> (t: MockTransport)
        ensures
            t.route_keys() == Set::<Seq<char>>::empty(),
    {
        MockTransport { routes: StrMap::new() }
    }

    /// This transport with `handler` answering `method` requests to `host` and
    /// `path` (a leading `/` is added when missing); it replaces an earlier
    /// handler of the same route. The handler must accept every request.
    pub fn route<F: Fn(&Request, &TransportContext) -> Result<Response, NetError> + 'static>(
        self,
        method: HttpMethod,
        host: &str,
        path: &str,
        handler: F,
    ) -> (t: MockTransport)
        requires
            forall|q: Request, c: TransportContext| call_requires(handler, (&q, &c)),
        ensures
            t.route_keys() == self.route_keys().insert(route_key(method, host@, normalized_path(path@))),
            forall|q: Request, c: TransportContext, x: Result<Response, NetError>|
                #[trigger] t.handler_allows(route_key(method, host@, normalized_path(path@)), q, c, x)
                    == call_ensures(handler, (&q, &c), x),
            forall|k: Seq<char>, q: Request, c: TransportContext, x: Result<Response, NetError>|
                k != route_key(method, host@, normalized_path(path@)) && self.route_keys().contains(k)
                    ==> #[trigger] t.handler_allows(k, q, c, x) == self.handler_allows(k, q, c, x),
    {
        proof {
            use_type_invariant(&self);
        }
        let MockTransport { mut routes } = self;
        let p = normalize_path(path.to_owned());
        let key = route_key_of(method, host, p.as_str());
        let r = Route::new(handler);
        let ghost before = routes@;
        let _ = routes.insert(key, r);
        assert(routes@.dom() =~= before.dom().insert(route_key(method, host@, normalized_path(path@))));
        MockTransport { routes }
    }
}

impl Default for MockTransport {
    fn default() -> (t: Self)
        ensures
            t.route_keys() == Set::<Seq<char>>::empty(),
    {
        MockTransport::new()
    }
}

impl Transport for MockTransport {
    /// Runs the handler of the request's method and the target's host and
    /// path; a request with no such route is a transport error.
    fn execute(&self, request: &Request, context: &TransportContext) -> (r: Result<Response, NetError>)
        ensures
            !self.route_keys().contains(route_key(request.method, context.target@.host, context.target@.path))
                ==> (r matches Err(e) && e matches NetError::Transport(m)
                    && m@ == missing_route_text(request.method, context.target@)),
            self.route_keys().contains(route_key(request.method, context.target@.host, context.target@.path))
                ==> self.handler_allows(route_key(request.method, context.target@.host, context.target@.path), *request,
                *context, r),
    {
        proof {
            use_type_invariant(self);
        }
        let key = route_key_of(request.method, context.target.host(), context.target.path());
        match self.routes.get(key.as_str()) {
            Some(route) => {
                assert(route.handler.accepts(*request, *context));
                route.handler.handle(request, context)
            },
            None => {
                let mut m = "no mock route registered for ".to_owned();
                push_str(&mut m, request.method.label());
                push_str(&mut m, " ");
                push_str(&mut m, context.target.host());
                push_str(&mut m, context.target.path());
                proof {
                    assert(m@ =~= missing_route_text(request.method, context.target@));
                }
                Err(NetError::Transport(m))
            },
        }
    }
}

/// The port an attempt connects to: the target's, or 80 for `http` and 443
/// otherwise.
pub open spec fn connect_port(target: EndpointView) -> u16 {
    match target.port {
        Some(p) => p,
        None => if target.scheme == "http"@ { 80 } else { 443 },
    }
}

/// The port an attempt to `target` connects to.
pub fn target_port(target: &Endpoint) -> (p: u16)
    ensures
        p == connect_port(target@),
{
    match target.port() {
        Some(p) => p,
        None => {
            if crate::text::same_text(target.scheme(), "http") {
                80
            } else {
                443
            }
        },
    }
}

/// Settings of the HTTP transport: connect timeout, idle-pool timeout and
/// size, and whether invalid certificates are accepted.
#[derive(Debug, Clone, Copy)]
pub struct ReqwestTransport {
    connect_timeout: Duration,
    pool_idle_timeout: Duration,
    pool_max_idle_per_host: usize,
    accept_invalid_certs: bool,
}

/// The settings as plain values.
pub struct HttpSettings {
    pub connect_timeout: Duration,
    pub pool_idle_timeout: Duration,
    pub pool_max_idle_per_host: usize,
    pub accept_invalid_certs: bool,
}

impl View for ReqwestTransport {
    type V = HttpSettings;

    closed spec fn view(&self) -> HttpSettings {
        HttpSettings {
            connect_timeout: self.connect_timeout,
            pool_idle_timeout: self.pool_idle_timeout,
            pool_max_idle_per_host: self.pool_max_idle_per_host,
            accept_invalid_certs: self.accept_invalid_certs,
        }
    }
}

impl Default for ReqwestTransport {
    fn default() -> (t: Self)
        ensures
            t@.connect_timeout == Duration::from_secs_spec(5),
            t@.pool_idle_timeout == Duration::from_secs_spec(30),
            t@.pool_max_idle_per_host == 8,
            !t@.accept_invalid_certs,
    {
        ReqwestTransport {
            connect_timeout: Duration::from_secs(5),
            pool_idle_timeout: Duration::from_secs(30),
            pool_max_idle_per_host: 8,
            accept_invalid_certs: false,
        }
    }
}

impl ReqwestTransport {
    /// The default settings: 5 s to connect, 30 s idle, 8 idle connections
    /// per host, valid certificates only.
    pub fn new() -> (t: ReqwestTransport)
        ensures
            t@.connect_timeout == Duration::from_secs_spec(5),
            t@.pool_idle_timeout == Duration::from_secs_spec(30),
            t@.pool_max_idle_per_host == 8,
            !t@.accept_invalid_certs,
    {
        ReqwestTransport::default()
    }

    /// These settings with the connect timeout `timeout`.
    pub fn connect_timeout(self, timeout: Duration) -> (t: ReqwestTransport)
        ensures
            t@ == (HttpSettings { connect_timeout: timeout, ..self@ }),
    {
        ReqwestTransport { connect_timeout: timeout, ..self }
    }

    /// These settings with the idle-pool timeout `timeout`.
    pub fn pool_idle_timeout(self, timeout: Duration) -> (t: ReqwestTransport)
        ensures
            t@ == (HttpSettings { pool_idle_timeout: timeout, ..self@ }),
    {
        ReqwestTransport { pool_idle_timeout: timeout, ..self }
    }

    /// These settings with at most `limit` idle connections per host.
    pub fn pool_max_idle_per_host(self, limit: usize) -> (t: ReqwestTransport)
        ensures
            t@ == (HttpSettings { pool_max_idle_per_host: limit, ..self@ }),
    {
        ReqwestTransport { pool_max_idle_per_host: limit, ..self }
    }

    /// These settings with invalid certificates accepted or not.
    pub fn accept_invalid_certs(self, enabled: bool) -> (t: ReqwestTransport)
        ensures
            t@ == (HttpSettings { accept_invalid_certs: enabled, ..self@ }),
    {
        ReqwestTransport { accept_invalid_certs: enabled, ..self }
    }

    /// The connect timeout.
    pub fn connect_timeout_value(&self) -> (d: Duration)
        ensures
            d == self@.connect_timeout,
    {
        self.connect_timeout
    }

    /// The idle-pool timeout.
    pub fn pool_idle_timeout_value(&self) -> (d: Duration)
        ensures
            d == self@.pool_idle_timeout,
    {
        self.pool_idle_timeout
    }

    /// The idle connections kept per host.
    pub fn pool_max_idle_per_host_value(&self) -> (n: usize)
        ensures
            n == self@.pool_max_idle_per_host,
    {
        self.pool_max_idle_per_host
    }

    /// Whether invalid certificates are accepted.
    pub fn accepts_invalid_certs(&self) -> (b: bool)
        ensures
            b == self@.accept_invalid_certs,
    {
        self.accept_invalid_certs
    }
}

} // verus!
