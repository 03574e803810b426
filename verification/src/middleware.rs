//! Hooks around each request: before it goes out, on its response, on errors.
use vstd::prelude::*;
use crate::config::business::BusinessContext;
use crate::config::runtime::RuntimeOptions;
use crate::error::NetError;
use crate::strmap::{text_values, StrMap};
use crate::time::Duration;
use crate::types::headers::{header_key, Headers};
use crate::types::request::{Request, RequestView};
use crate::types::response::Response;

verus! {

/// What a hook may consult: the request id, the business context and the
/// runtime options.
pub struct MiddlewareContext<'a> {
    pub request_id: String,
    pub business: &'a BusinessContext,
    pub options: &'a RuntimeOptions,
}

/// A hook on the request pipeline; each phase does nothing unless overridden.
pub trait Middleware {
    /// The hook's name, as reported in events.
    fn name(&self) -> &str;

    /// Runs before the request is signed and sent.
    fn on_request(&self, request: &mut Request, context: &MiddlewareContext<'_>) -> (r: Result<(), NetError>)
        default_ensures
            r is Ok,
            *final(request) == *old(request),
    {
        Ok(())
    }

    /// Runs on each response received or served from cache.
    fn on_response(&self, request: &Request, response: &mut Response, context: &MiddlewareContext<'_>) -> (r: Result<(), NetError>)
        default_ensures
            r is Ok,
            *final(response) == *old(response),
    {
        Ok(())
    }

    /// Runs on each transport error.
    fn on_error(&self, request: &Request, error: &mut NetError, context: &MiddlewareContext<'_>) -> (r: Result<(), NetError>)
        default_ensures
            r is Ok,
            *final(error) == *old(error),
    {
        Ok(())
    }
}

/// Adds fixed headers to every request.
#[derive(Debug)]
pub struct StaticHeadersMiddleware {
    headers: Headers,
}

impl StaticHeadersMiddleware {
    /// The headers added.
    pub closed spec fn added(&self) -> Map<Seq<char>, Seq<char>> {
        self.headers@
    }

    /// A hook that adds `headers`.
    pub fn new(headers: Headers) -> (m: StaticHeadersMiddleware)
        ensures
            m.added() == headers@,
    {
        StaticHeadersMiddleware { headers }
    }
}

impl Middleware for StaticHeadersMiddleware {
    fn name(&self) -> (r: &str)
        ensures
            r@ == "static-headers"@,
    {
        "static-headers"
    }

    fn on_request(&self, request: &mut Request, context: &MiddlewareContext<'_>) -> (r: Result<(), NetError>)
        ensures
            r is Ok,
            final(request)@ == (RequestView { headers: old(request)@.headers.union_prefer_right(self.added()), ..old(request)@ }),
    {
        request.headers.extend(&self.headers);
        Ok(())
    }
}

/// Sets every request's timeout.
#[derive(Debug, Clone, Copy)]
pub struct TimeoutMiddleware {
    timeout: Duration,
}

impl TimeoutMiddleware {
    /// The timeout set.
    pub closed spec fn limit(&self) -> Duration {
        self.timeout
    }

    /// A hook that sets the timeout to `timeout`.
    pub fn new(timeout: Duration) -> (m: TimeoutMiddleware)
        ensures
            m.limit() == timeout,
    {
        TimeoutMiddleware { timeout }
    }
}

impl Middleware for TimeoutMiddleware {
    fn name(&self) -> (r: &str)
        ensures
            r@ == "timeout"@,
    {
        "timeout"
    }

    fn on_request(&self, request: &mut Request, context: &MiddlewareContext<'_>) -> (r: Result<(), NetError>)
        ensures
            r is Ok,
            final(request)@ == (RequestView { timeout: self.limit(), ..old(request)@ }),
    {
        request.timeout = self.timeout;
        Ok(())
    }
}

/// Adds fixed metadata entries to every request.
#[derive(Debug)]
pub struct MetadataMiddleware {
    entries: StrMap<String>,
}

impl MetadataMiddleware {
    /// The entries added.
    pub closed spec fn added(&self) -> Map<Seq<char>, Seq<char>> {
        text_values(self.entries@)
    }

    /// A hook that adds `entries`.
    pub fn new(entries: StrMap<String>) -> (m: MetadataMiddleware)
        ensures
            m.added() == text_values(entries@),
    {
        MetadataMiddleware { entries }
    }
}

impl Middleware for MetadataMiddleware {
    fn name(&self) -> (r: &str)
        ensures
            r@ == "metadata"@,
    {
        "metadata"
    }

    fn on_request(&self, request: &mut Request, context: &MiddlewareContext<'_>) -> (r: Result<(), NetError>)
        ensures
            r is Ok,
            final(request)@ == (RequestView { metadata: old(request)@.metadata.union_prefer_right(self.added()), ..old(request)@ }),
    {
        request.metadata.extend_from(&self.entries);
        assert(request@.metadata =~= old(request)@.metadata.union_prefer_right(self.added()));
        Ok(())
    }
}

/// Adds `x-request-id` (the request's id) unless the request has one.
#[derive(Debug, Clone, Copy, Default)]
pub struct RequestIdMiddleware;

impl Middleware for RequestIdMiddleware {
    fn name(&self) -> (r: &str)
        ensures
            r@ == "request-id"@,
    {
        "request-id"
    }

    fn on_request(&self, request: &mut Request, context: &MiddlewareContext<'_>) -> (r: Result<(), NetError>)
        ensures
            r is Ok,
            old(request)@.headers.contains_key(header_key("x-request-id"@)) ==> final(request)@ == old(request)@,
            !old(request)@.headers.contains_key(header_key("x-request-id"@)) ==> final(request)@ == (RequestView {
                headers: old(request)@.headers.insert(header_key("x-request-id"@), context.request_id@),
                ..old(request)@
            }),
    {
        if !request.headers.contains_key("x-request-id") {
            request.headers.insert("x-request-id".to_owned(), context.request_id.clone());
        }
        Ok(())
    }
}

} // verus!
