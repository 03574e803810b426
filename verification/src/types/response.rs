//! Responses with their provenance and metrics.
use vstd::prelude::*;
use crate::config::business::copy_opt_string;
use crate::time::Duration;
use crate::types::body::{Body, BodyView};
use crate::types::endpoint::{opt_text, Endpoint, EndpointView};
use crate::types::headers::{header_key, Headers};

verus! {

/// Where a response came from: the requested and the contacted endpoint, the
/// address used, the CDN node and the cache key.
#[derive(Debug)]
pub struct ResponseProvenance {
    pub original_endpoint: Option<Endpoint>,
    pub selected_endpoint: Option<Endpoint>,
    pub resolved_ip: Option<String>,
    pub cdn_node: Option<String>,
    pub cache_key: Option<String>,
}

/// Provenance as plain values.
pub struct ProvenanceView {
    pub original_endpoint: Option<EndpointView>,
    pub selected_endpoint: Option<EndpointView>,
    pub resolved_ip: Option<Seq<char>>,
    pub cdn_node: Option<Seq<char>>,
    pub cache_key: Option<Seq<char>>,
}

/// The view of an optional endpoint.
pub open spec fn opt_endpoint(e: Option<Endpoint>) -> Option<EndpointView> {
    match e {
        Some(x) => Some(x@),
        None => None,
    }
}

impl View for ResponseProvenance {
    type V = ProvenanceView;

    open spec fn view(&self) -> ProvenanceView {
        ProvenanceView {
            original_endpoint: opt_endpoint(self.original_endpoint),
            selected_endpoint: opt_endpoint(self.selected_endpoint),
            resolved_ip: opt_text(self.resolved_ip),
            cdn_node: opt_text(self.cdn_node),
            cache_key: opt_text(self.cache_key),
        }
    }
}

/// A copy of an optional endpoint.
pub fn copy_endpoint(e: &Option<Endpoint>) -> (r: Option<Endpoint>)
    ensures
        opt_endpoint(r) == opt_endpoint(*e),
{
    match e {
        Some(x) => Some(x.clone()),
        None => None,
    }
}

impl Clone for ResponseProvenance {
    fn clone(&self) -> (r: Self)
        ensures
            r@ == self@,
    {
        ResponseProvenance {
            original_endpoint: copy_endpoint(&self.original_endpoint),
            selected_endpoint: copy_endpoint(&self.selected_endpoint),
            resolved_ip: copy_opt_string(&self.resolved_ip),
            cdn_node: copy_opt_string(&self.cdn_node),
            cache_key: copy_opt_string(&self.cache_key),
        }
    }
}

impl Default for ResponseProvenance {
    fn default() -> (p: Self)
        ensures
            p@ == (ProvenanceView {
                original_endpoint: None,
                selected_endpoint: None,
                resolved_ip: None,
                cdn_node: None,
                cache_key: None,
            }),
    {
        ResponseProvenance {
            original_endpoint: None,
            selected_endpoint: None,
            resolved_ip: None,
            cdn_node: None,
            cache_key: None,
        }
    }
}

/// What an attempt cost: attempt number, latency, bytes in and out, cache hit.
#[derive(Debug, Clone, Copy)]
pub struct ResponseMetrics {
    pub attempt: usize,
    pub latency: Duration,
    pub bytes_in: usize,
    pub bytes_out: usize,
    pub cache_hit: bool,
}

impl Default for ResponseMetrics {
    fn default() -> (m: Self)
        ensures
            m.attempt == 1,
            m.latency.total_nanos() == 0,
            m.bytes_in == 0,
            m.bytes_out == 0,
            !m.cache_hit,
    {
        ResponseMetrics { attempt: 1, latency: Duration::zero(), bytes_in: 0, bytes_out: 0, cache_hit: false }
    }
}

/// A response: status, headers, payload, provenance and metrics.
#[derive(Debug)]
pub struct Response {
    pub status: u16,
    pub headers: Headers,
    pub body: Body,
    pub provenance: ResponseProvenance,
    pub metrics: ResponseMetrics,
}

/// A response as plain values.
pub struct ResponseView {
    pub status: u16,
    pub headers: Map<Seq<char>, Seq<char>>,
    pub body: BodyView,
    pub provenance: ProvenanceView,
    pub metrics: ResponseMetrics,
}

impl View for Response {
    type V = ResponseView;

    open spec fn view(&self) -> ResponseView {
        ResponseView {
            status: self.status,
            headers: self.headers@,
            body: self.body@,
            provenance: self.provenance@,
            metrics: self.metrics,
        }
    }
}

impl Clone for Response {
    fn clone(&self) -> (r: Self)
        ensures
            r@ == self@,
    {
        Response {
            status: self.status,
            headers: self.headers.clone(),
            body: self.body.clone(),
            provenance: self.provenance.clone(),
            metrics: self.metrics,
        }
    }
}

/// Whether a status is a success (200 to 299).
pub open spec fn success_status(status: u16) -> bool {
    200 <= status < 300
}

/// A fresh response with `status`: no headers, empty payload, no provenance,
/// first attempt, zero latency, no bytes counted, not from the cache.
pub open spec fn fresh_response(status: u16, r: ResponseView) -> bool {
    &&& r.status == status
    &&& r.headers == Map::<Seq<char>, Seq<char>>::empty()
    &&& r.body == BodyView::Empty
    &&& r.provenance == (ProvenanceView {
        original_endpoint: None,
        selected_endpoint: None,
        resolved_ip: None,
        cdn_node: None,
        cache_key: None,
    })
    &&& r.metrics.attempt == 1
    &&& r.metrics.latency.total_nanos() == 0
    &&& r.metrics.bytes_in == 0
    &&& r.metrics.bytes_out == 0
    &&& !r.metrics.cache_hit
}

impl Response {
    /// A response with `status` and nothing else.
    pub fn new(status: u16) -> (r: Response)
        ensures
            fresh_response(status, r@),
    {
        Response {
            status,
            headers: Headers::new(),
            body: Body::Empty,
            provenance: ResponseProvenance::default(),
            metrics: ResponseMetrics::default(),
        }
    }

    /// This response with one more header.
    pub fn with_header(self, key: String, value: String) -> (r: Response)
        ensures
            r@ == (ResponseView { headers: self@.headers.insert(header_key(key@), value@), ..self@ }),
    {
        let mut r = self;
        r.headers.insert(key, value);
        r
    }

    /// This response with a payload.
    pub fn with_body(self, body: Body) -> (r: Response)
        ensures
            r@ == (ResponseView { body: body@, ..self@ }),
    {
        let mut r = self;
        r.body = body;
        r
    }

    /// Whether the status is 2xx.
    pub fn is_success(&self) -> (r: bool)
        ensures
            r == success_status(self.status),
    {
        200 <= self.status && self.status < 300
    }
}

} // verus!
