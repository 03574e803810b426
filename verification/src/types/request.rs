//! Requests and their builder.
use vstd::prelude::*;
use crate::config::business::{copy_opt_string, BusinessProfile, BusinessProfileView};
use crate::strmap::{text_values, StrMap};
use crate::text::{decimal, push_str, zero_padded, zero_padded_decimal};
use crate::time::Duration;
use crate::types::body::{Body, BodyView};
use crate::types::endpoint::{opt_text, Endpoint, EndpointView};
use crate::types::headers::{header_key, Headers};

verus! {

/// HTTP request methods.
#[derive(Debug, Clone, Copy, PartialEq, Eq, Structural, Hash)]
pub enum HttpMethod {
    Get,
    Post,
    Put,
    Patch,
    Delete,
    Head,
    Options,
}

/// The method's name as `{:?}` prints it.
pub open spec fn method_label(m: HttpMethod) -> Seq<char> {
    match m {
        HttpMethod::Get => "Get"@,
        HttpMethod::Post => "Post"@,
        HttpMethod::Put => "Put"@,
        HttpMethod::Patch => "Patch"@,
        HttpMethod::Delete => "Delete"@,
        HttpMethod::Head => "Head"@,
        HttpMethod::Options => "Options"@,
    }
}

impl HttpMethod {
    /// The method's name as `{:?}` prints it.
    pub fn label(&self) -> (r: &'static str)
        ensures
            r@ == method_label(*self),
    {
        match self {
            HttpMethod::Get => "Get",
            HttpMethod::Post => "Post",
            HttpMethod::Put => "Put",
            HttpMethod::Patch => "Patch",
            HttpMethod::Delete => "Delete",
            HttpMethod::Head => "Head",
            HttpMethod::Options => "Options",
        }
    }
}

/// An outgoing request with its routing, auth and resume settings.
#[derive(Debug)]
pub struct Request {
    pub id: String,
    pub method: HttpMethod,
    pub endpoint: Endpoint,
    pub headers: Headers,
    pub body: Body,
    pub timeout: Duration,
    pub metadata: StrMap<String>,
    pub business_profile: Option<BusinessProfile>,
    pub auth_scope: Option<String>,
    pub resumable: bool,
}

/// A request as plain values.
pub struct RequestView {
    pub id: Seq<char>,
    pub method: HttpMethod,
    pub endpoint: EndpointView,
    pub headers: Map<Seq<char>, Seq<char>>,
    pub body: BodyView,
    pub timeout: Duration,
    pub metadata: Map<Seq<char>, Seq<char>>,
    pub business_profile: Option<BusinessProfileView>,
    pub auth_scope: Option<Seq<char>>,
    pub resumable: bool,
}

/// The view of an optional profile.
pub open spec fn opt_profile(p: Option<BusinessProfile>) -> Option<BusinessProfileView> {
    match p {
        Some(b) => Some(b@),
        None => None,
    }
}

impl View for Request {
    type V = RequestView;

    open spec fn view(&self) -> RequestView {
        RequestView {
            id: self.id@,
            method: self.method,
            endpoint: self.endpoint@,
            headers: self.headers@,
            body: self.body@,
            timeout: self.timeout,
            metadata: text_values(self.metadata@),
            business_profile: opt_profile(self.business_profile),
            auth_scope: opt_text(self.auth_scope),
            resumable: self.resumable,
        }
    }
}

fn copy_profile(p: &Option<BusinessProfile>) -> (r: Option<BusinessProfile>)
    ensures
        opt_profile(r) == opt_profile(*p),
{
    match p {
        Some(b) => Some(b.clone()),
        None => None,
    }
}

impl Clone for Request {
    fn clone(&self) -> (r: Self)
        ensures
            r@ == self@,
    {
        Request {
            id: self.id.clone(),
            method: self.method,
            endpoint: self.endpoint.clone(),
            headers: self.headers.clone(),
            body: self.body.clone(),
            timeout: self.timeout,
            metadata: self.metadata.copy(),
            business_profile: copy_profile(&self.business_profile),
            auth_scope: copy_opt_string(&self.auth_scope),
            resumable: self.resumable,
        }
    }
}

/// Whether responses to requests with this method may be cached.
pub open spec fn cacheable_method(m: HttpMethod) -> bool {
    m == HttpMethod::Get || m == HttpMethod::Head
}

impl Request {
    /// A builder for a request.
    pub fn builder(method: HttpMethod, endpoint: Endpoint) -> (b: RequestBuilder)
        ensures
            b@ == fresh_request(method, endpoint@),
    {
        RequestBuilder::new(method, endpoint)
    }

    /// Whether the response may be cached (GET and HEAD).
    pub fn cacheable(&self) -> (r: bool)
        ensures
            r == cacheable_method(self.method),
    {
        matches!(self.method, HttpMethod::Get | HttpMethod::Head)
    }

    /// Length of the payload in bytes.
    pub fn payload_len(&self) -> (n: usize)
        ensures
            n == self.body@.wire_bytes().len() as usize,
    {
        self.body.len()
    }
}

/// The identifier of the `seq`-th request: `req-` and ten zero-padded digits.
pub open spec fn request_id_text(seq: u64) -> Seq<char> {
    "req-"@ + zero_padded(decimal(seq as nat), 10)
}

/// The identifier of the `seq`-th request.
pub fn request_id(seq: u64) -> (r: String)
    ensures
        r@ == request_id_text(seq),
{
    let mut r = "req-".to_owned();
    let digits = zero_padded_decimal(seq, 10);
    push_str(&mut r, digits.as_str());
    r
}

/// The request a new builder starts from: no identifier yet (the client
/// assigns one when it sends the request), no headers, no body, a ten-second
/// timeout, no metadata, profile or auth scope, not resumable.
pub open spec fn fresh_request(method: HttpMethod, endpoint: EndpointView) -> RequestView {
    RequestView {
        id: Seq::empty(),
        method,
        endpoint,
        headers: Map::empty(),
        body: BodyView::Empty,
        timeout: Duration::from_secs_spec(10),
        metadata: Map::empty(),
        business_profile: None,
        auth_scope: None,
        resumable: false,
    }
}

/// Builds a request step by step.
#[derive(Debug)]
pub struct RequestBuilder {
    request: Request,
}

impl View for RequestBuilder {
    type V = RequestView;

    closed spec fn view(&self) -> RequestView {
        self.request@
    }
}

impl Clone for RequestBuilder {
    fn clone(&self) -> (r: Self)
        ensures
            r@ == self@,
    {
        RequestBuilder { request: self.request.clone() }
    }
}

impl RequestBuilder {
    /// A builder for `method` on `endpoint`.
    pub fn new(method: HttpMethod, endpoint: Endpoint) -> (b: RequestBuilder)
        ensures
            b@ == fresh_request(method, endpoint@),
    {
        let b = RequestBuilder {
            request: Request {
                id: String::new(),
                method,
                endpoint,
                headers: Headers::new(),
                body: Body::Empty,
                timeout: Duration::from_secs(10),
                metadata: StrMap::new(),
                business_profile: None,
                auth_scope: None,
                resumable: false,
            },
        };
        assert(b@.metadata =~= Map::<Seq<char>, Seq<char>>::empty());
        b
    }

    /// Gives the request an identifier of the caller's choosing.
    pub fn id(self, id: String) -> (b: RequestBuilder)
        ensures
            b@ == (RequestView { id: id@, ..self@ }),
    {
        let mut b = self;
        b.request.id = id;
        b
    }

    /// Adds a header.
    pub fn header(self, key: String, value: String) -> (b: RequestBuilder)
        ensures
            b@ == (RequestView { headers: self@.headers.insert(header_key(key@), value@), ..self@ }),
    {
        let mut b = self;
        b.request.headers.insert(key, value);
        b
    }

    /// Adds every header of `headers`.
    pub fn headers(self, headers: Headers) -> (b: RequestBuilder)
        ensures
            b@ == (RequestView { headers: self@.headers.union_prefer_right(headers@), ..self@ }),
    {
        let mut b = self;
        b.request.headers.extend(&headers);
        b
    }

    /// Sets the payload.
    pub fn body(self, body: Body) -> (b: RequestBuilder)
        ensures
            b@ == (RequestView { body: body@, ..self@ }),
    {
        let mut b = self;
        b.request.body = body;
        b
    }

    /// Sets the timeout.
    pub fn timeout(self, timeout: Duration) -> (b: RequestBuilder)
        ensures
            b@ == (RequestView { timeout, ..self@ }),
    {
        let mut b = self;
        b.request.timeout = timeout;
        b
    }

    /// Adds a metadata entry.
    pub fn metadata(self, key: String, value: String) -> (b: RequestBuilder)
        ensures
            b@ == (RequestView { metadata: self@.metadata.insert(key@, value@), ..self@ }),
    {
        let mut b = self;
        b.request.metadata.insert(key, value);
        assert(text_values(b.request.metadata@) =~= self@.metadata.insert(key@, value@));
        b
    }

    /// Attaches a business profile.
    pub fn business_profile(self, profile: BusinessProfile) -> (b: RequestBuilder)
        ensures
            b@ == (RequestView { business_profile: Some(profile@), ..self@ }),
    {
        let mut b = self;
        b.request.business_profile = Some(profile);
        b
    }

    /// Sets the auth scope.
    pub fn auth_scope(self, scope: String) -> (b: RequestBuilder)
        ensures
            b@ == (RequestView { auth_scope: Some(scope@), ..self@ }),
    {
        let mut b = self;
        b.request.auth_scope = Some(scope);
        b
    }

    /// Marks the request as resumable or not.
    pub fn resumable(self, enabled: bool) -> (b: RequestBuilder)
        ensures
            b@ == (RequestView { resumable: enabled, ..self@ }),
    {
        let mut b = self;
        b.request.resumable = enabled;
        b
    }

    /// The request.
    pub fn build(self) -> (r: Request)
        ensures
            r@ == self@,
    {
        self.request
    }
}

} // verus!
