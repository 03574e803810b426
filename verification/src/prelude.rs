//! The items most programs need, for a single glob import.

pub use crate::{
    ApiKeySigner, AtlasClient, AtlasClientBuilder, Authenticator, BearerTokenSigner, Body, BusinessContext,
    BusinessProfile, CacheMode, CachePolicy, CacheStore, DirectCdnRouter, DnsPolicy, DownloadRequest, Duration,
    Endpoint, Headers, HttpMethod, MemoryCache, MemoryEventSink, MemoryResumeStore, MetadataMiddleware,
    MockTransport, NetError, PassthroughResolver, RequestBuilder, RequestIdMiddleware, Response, RetryPolicy,
    RuntimeOptions, StaticHeadersMiddleware, StaticResolver, StaticResponseTransport, TimeoutMiddleware, Transport,
    UploadRequest,
};
