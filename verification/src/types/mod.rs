//! The networking objects: payloads, endpoints, headers, requests, responses.

pub mod body;
pub mod endpoint;
pub mod headers;
pub mod request;
pub mod response;

pub use body::{Body, BodyKind, BodyView};
pub use endpoint::{Endpoint, EndpointView};
pub use headers::{HeaderMap, Headers};
pub use request::{HttpMethod, Request, RequestBuilder, RequestView};
pub use response::{ProvenanceView, Response, ResponseMetrics, ResponseProvenance, ResponseView};
