//! A verified networking policy core: request and response models, header
//! normalisation, URL parsing, authentication chains, response caching with a
//! binary on-disk format, DNS and CDN selection, retries with a circuit breaker,
//! resumable chunked transfers, middleware, events, and the client that runs a
//! request through all of them.

pub mod text;
pub mod strmap;
pub mod seqs;
pub mod time;
pub mod error;
pub mod types;
pub mod config;
pub mod cache;
pub mod cdn;
pub mod dns;
pub mod circuit;
pub mod transfer;
pub mod auth;
pub mod observability;
pub mod middleware;
pub mod transport;
pub mod pipeline;
pub mod client;
pub mod prelude;

pub use auth::{
    ApiKeySigner, Authenticator, BearerTokenSigner, DelegatingSigner, HeaderSigner, SessionSigner, SignFn, Signer,
};
pub use cache::{build_cache_key, CacheLookup, CacheStore, CacheSummary, DiskCacheEntry, MemoryCache};
pub use cdn::{CdnDecision, CdnRouter, DirectCdnRouter, EdgeNode, RuleBasedCdnRouter};
pub use circuit::CircuitBreaker;
pub use client::{AtlasClient, AtlasClientBuilder, ResponseEnvelope};
pub use config::{
    AuthPolicy, BusinessContext, BusinessProfile, CacheMode, CachePolicy, CdnPolicy, CdnStrategy,
    CircuitBreakerPolicy, DnsPolicy, DnsSelectionStrategy, RateLimitPolicy, ResumePolicy, RetryPolicy,
    RuntimeOptions,
};
pub use dns::{DnsRecord, PassthroughResolver, ResolvedAddress, Resolver, StaticResolver};
pub use error::NetError;
pub use middleware::{
    MetadataMiddleware, Middleware, MiddlewareContext, RequestIdMiddleware, StaticHeadersMiddleware,
    TimeoutMiddleware,
};
pub use observability::{ClientEvent, EventLevel, EventSink, ExecutionReport, MemoryEventSink};
pub use strmap::StrMap;
pub use time::{Duration, Instant};
pub use transfer::{
    ByteRange, DownloadOutcome, DownloadRequest, MemoryResumeStore, ResumableTransferManager, ResumeCheckpoint,
    ResumeStore, TransferChunk, TransferSpec, UploadOutcome, UploadRequest,
};
pub use transport::{MockTransport, ReqwestTransport, StaticResponseTransport, Transport, TransportContext};
pub use types::{
    Body, BodyKind, Endpoint, HeaderMap, Headers, HttpMethod, Request, RequestBuilder, Response, ResponseMetrics,
    ResponseProvenance,
};
