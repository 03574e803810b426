use atlas_net::auth::Signer;
use atlas_net::cache::format::{decode_body, DiskCacheEntry};
use atlas_net::cache::memory::{cache_file_name, classify_disk_entry, disk_entry};
use atlas_net::circuit::CircuitBreaker;
use atlas_net::observability::EventSink;
use atlas_net::pipeline::{
    address_for_attempt, cache_phase, download_range, error_step, upload_range, CachePhase, ErrorStep,
};
use atlas_net::text::{u128_decimal, u64_decimal};
use atlas_net::transport::target_port;
use atlas_net::types::request::request_id;
use atlas_net::{
    build_cache_key, ApiKeySigner, Authenticator, BearerTokenSigner, Body, BodyKind, DelegatingSigner, BusinessContext,
    BusinessProfile, ByteRange, CacheLookup, CacheMode, CachePolicy, CacheStore, CdnRouter, CircuitBreakerPolicy,
    ClientEvent, DirectCdnRouter, DnsPolicy, DnsRecord, Duration, EdgeNode, Endpoint, EventLevel, HeaderSigner,
    Headers, HttpMethod, Instant, MemoryCache, MemoryEventSink, MemoryResumeStore, MetadataMiddleware, Middleware,
    MiddlewareContext, MockTransport, NetError, PassthroughResolver, Request, RequestBuilder, RequestIdMiddleware,
    ResolvedAddress, Resolver, Response, ResumableTransferManager, ResumePolicy, ResumeStore, RetryPolicy,
    RuleBasedCdnRouter, RuntimeOptions, SessionSigner, StaticHeadersMiddleware, StaticResolver,
    StaticResponseTransport, StrMap, TimeoutMiddleware, TransferChunk, TransferSpec, Transport, TransportContext,
};

fn get_request(url: &str) -> Request {
    RequestBuilder::new(HttpMethod::Get, Endpoint::parse(url).unwrap()).build()
}

fn context_for(url: &str, attempt: usize) -> TransportContext {
    TransportContext { attempt, target: Endpoint::parse(url).unwrap(), resolved_ip: None }
}

fn spec(id: &str, total: u64) -> TransferSpec {
    TransferSpec {
        transfer_id: id.into(),
        total_size: total,
        etag: Some("e".into()),
        content_type: None,
        business_tags: vec![],
    }
}

#[test]
fn decimal_rendering() {
    assert_eq!(u64_decimal(0), "0");
    assert_eq!(u64_decimal(1234567890), "1234567890");
    assert_eq!(u128_decimal(u128::MAX), u128::MAX.to_string());
}

#[test]
fn request_ids_are_zero_padded() {
    assert_eq!(request_id(7), "req-0000000007");
    assert_eq!(request_id(12345678901), "req-12345678901");
}

#[test]
fn endpoint_parses_every_part() {
    let e = Endpoint::parse("http://example.com:8080/a/b?x=1").unwrap();
    assert_eq!(e.scheme(), "http");
    assert_eq!(e.host(), "example.com");
    assert_eq!(e.port(), Some(8080));
    assert_eq!(e.path(), "/a/b");
    assert_eq!(e.query(), Some("x=1"));
    assert_eq!(e.to_string(), "http://example.com:8080/a/b?x=1");
    let bare = Endpoint::parse("https://example.com").unwrap();
    assert_eq!(bare.path(), "/");
    assert_eq!(bare.port(), None);
}

#[test]
fn endpoint_rejects_bad_urls() {
    match Endpoint::parse("example.com/path") {
        Err(NetError::InvalidRequest(m)) => assert_eq!(m, "missing scheme in url: example.com/path"),
        other => panic!("unexpected {other:?}"),
    }
    match Endpoint::parse("https://example.com:99999/") {
        Err(NetError::InvalidRequest(m)) => assert_eq!(m, "invalid port in authority: example.com:99999"),
        other => panic!("unexpected {other:?}"),
    }
}

#[test]
fn endpoint_join_and_rewrite() {
    let e = Endpoint::parse("https://example.com/api/").unwrap();
    assert_eq!(e.join_path("/v1/items").path(), "/api/v1/items");
    let moved = e.clone().with_host("other.net".into()).with_port(Some(444));
    assert_eq!(moved.authority(), "other.net:444");
    assert_eq!(moved.origin(), "https://other.net:444");
}

#[test]
fn headers_are_case_insensitive() {
    let mut h = Headers::new();
    h.insert("  Content-Type ".into(), "text/plain".into());
    assert_eq!(h.get("content-type"), Some("text/plain"));
    assert_eq!(h.get("CONTENT-TYPE"), Some("text/plain"));
    assert!(h.contains_key("Content-type"));
    h.insert("CONTENT-TYPE".into(), "application/json".into());
    assert_eq!(h.get("content-type"), Some("application/json"));
    assert_eq!(h.iter().len(), 1);
    assert_eq!(h.remove("Content-Type"), Some("application/json".to_string()));
    assert_eq!(h.get("content-type"), None);
}

#[test]
fn headers_extend_prefers_later_values() {
    let mut a = Headers::new().with("a".into(), "1".into()).with("b".into(), "2".into());
    let b = Headers::new().with("B".into(), "3".into()).with("c".into(), "4".into());
    a.extend(&b);
    assert_eq!(a.get("a"), Some("1"));
    assert_eq!(a.get("b"), Some("3"));
    assert_eq!(a.get("c"), Some("4"));
}

#[test]
fn body_kinds_and_lengths() {
    assert_eq!(Body::Empty.kind(), BodyKind::Empty);
    assert_eq!(Body::Empty.len(), 0);
    assert!(Body::Empty.is_empty());
    let text = Body::from_str_slice("héllo");
    assert_eq!(text.kind(), BodyKind::Text);
    assert_eq!(text.len(), 6);
    assert_eq!(text.into_bytes(), "héllo".as_bytes().to_vec());
    let seg = Body::Segment { offset: 4, total_size: Some(10), bytes: vec![1, 2, 3] };
    assert_eq!(seg.kind(), BodyKind::Segment);
    assert_eq!(seg.len(), 3);
}

#[test]
fn error_texts_and_retryability() {
    assert_eq!(NetError::Auth("x".into()).to_string(), "auth error: x");
    assert_eq!(NetError::CircuitOpen("y".into()).to_string(), "circuit is open: y");
    let nested = NetError::retry_exhausted(3, NetError::transport("boom".into()));
    assert_eq!(nested.to_string(), "retry exhausted after 3 attempts: transport error: boom");
    assert!(nested.is_retryable());
    assert!(NetError::Dns("d".into()).is_retryable());
    assert!(NetError::Cache("c".into()).is_retryable());
    assert!(!NetError::PolicyViolation("p".into()).is_retryable());
    assert!(!NetError::InvalidConfig("p".into()).is_retryable());
}

#[test]
fn backoff_doubles_up_to_the_cap() {
    let policy = RetryPolicy::default();
    let millis: Vec<u128> = (1..=6).map(|a| policy.backoff_for(a).as_millis()).collect();
    assert_eq!(millis, vec![50, 100, 200, 400, 500, 500]);
    assert_eq!(policy.backoff_for(0).as_millis(), 50);
    assert!(policy.should_retry_status(503));
    assert!(!policy.should_retry_status(404));
}

#[test]
fn cache_policy_defaults() {
    let policy = CachePolicy::default();
    assert!(policy.enabled());
    assert!(policy.should_store_status(200));
    assert!(!policy.should_store_status(500));
    let mut off = CachePolicy::default();
    off.mode = CacheMode::Disabled;
    assert!(!off.enabled());
}

#[test]
fn circuit_opens_cools_down_and_closes() {
    let policy = CircuitBreakerPolicy {
        failure_threshold: 2,
        open_window: Duration::from_millis(1000),
        half_open_permits: 1,
    };
    let mut breaker = CircuitBreaker::new(policy);
    let t0 = Instant::from_nanos(1_000_000_000);
    assert!(breaker.allow_at(t0).is_ok());
    breaker.on_failure_at(t0).unwrap();
    assert!(breaker.allow_at(t0).is_ok());
    breaker.on_failure_at(t0).unwrap();
    match breaker.allow_at(Instant::from_nanos(1_250_000_000)) {
        Err(NetError::CircuitOpen(m)) => assert_eq!(m, "cooldown active for 750ms"),
        other => panic!("unexpected {other:?}"),
    }
    let later = Instant::from_nanos(2_000_000_000);
    assert!(breaker.allow_at(later).is_ok());
    match breaker.allow_at(later) {
        Err(NetError::CircuitOpen(m)) => assert_eq!(m, "half-open concurrency limit reached"),
        other => panic!("unexpected {other:?}"),
    }
    breaker.on_success().unwrap();
    assert!(breaker.allow_at(later).is_ok());
    assert!(breaker.allow_at(later).is_ok());
}

#[test]
fn memory_cache_hits_then_goes_stale_then_misses() {
    let mut cache = MemoryCache::new(4);
    let t0 = Instant::from_nanos(0);
    cache.put_at(
        "k".into(),
        Response::new(200).with_body(Body::from_str_slice("v")),
        Duration::from_millis(100),
        Duration::from_millis(100),
        t0,
    );
    assert!(matches!(cache.get_at("k", Instant::from_nanos(50_000_000)), CacheLookup::Hit(_)));
    assert!(matches!(cache.get_at("k", Instant::from_nanos(150_000_000)), CacheLookup::Stale(_)));
    assert!(matches!(cache.get_at("k", Instant::from_nanos(250_000_000)), CacheLookup::Miss));
    assert!(matches!(cache.get_at("k", Instant::from_nanos(50_000_000)), CacheLookup::Miss));
    assert!(matches!(cache.get_at("other", t0), CacheLookup::Miss));
}

#[test]
fn memory_cache_keeps_its_capacity() {
    let mut cache = MemoryCache::new(2);
    let t0 = Instant::from_nanos(0);
    for key in ["a", "b", "c"] {
        cache.put_at(key.into(), Response::new(200), Duration::from_secs(10), Duration::from_secs(0), t0);
    }
    let mut hits = 0;
    for key in ["a", "b", "c"] {
        if matches!(cache.get_at(key, t0), CacheLookup::Hit(_)) {
            hits += 1;
        }
    }
    assert_eq!(hits, 2);
    cache.invalidate("c").unwrap();
    assert!(matches!(cache.get_at("c", t0), CacheLookup::Miss));
}

#[test]
fn disk_entry_round_trips() {
    let response = Response::new(203)
        .with_header("X-One".into(), "1".into())
        .with_body(Body::Segment { offset: 5, total_size: None, bytes: vec![9, 8, 7] });
    let entry = disk_entry(response, 1_000, Duration::from_secs(2), Duration::from_secs(3));
    assert_eq!(entry.expires_at_ms, 3_000);
    assert_eq!(entry.stale_until_ms, 6_000);
    let bytes = entry.encode();
    assert_eq!(&bytes[..14], b"ATLAS-CACHE-V1");
    let back = DiskCacheEntry::decode(&bytes).unwrap();
    assert_eq!(back.expires_at_ms, 3_000);
    assert_eq!(back.stale_until_ms, 6_000);
    assert_eq!(back.response.status, 203);
    assert_eq!(back.response.headers.get("x-one"), Some("1"));
    match back.response.body {
        Body::Segment { offset, total_size, bytes } => {
            assert_eq!(offset, 5);
            assert_eq!(total_size, None);
            assert_eq!(bytes, vec![9, 8, 7]);
        }
        other => panic!("unexpected {other:?}"),
    }
}

#[test]
fn disk_entry_rejects_foreign_bytes() {
    match DiskCacheEntry::decode(b"NOT-A-CACHE-FILE-AT-ALL") {
        Err(NetError::Cache(m)) => assert_eq!(m, "unrecognized disk cache version"),
        other => panic!("unexpected {other:?}"),
    }
    assert!(matches!(DiskCacheEntry::decode(b"short"), Err(NetError::Cache(_))));
    let good = disk_entry(Response::new(200), 0, Duration::from_secs(1), Duration::from_secs(1)).encode();
    assert!(matches!(DiskCacheEntry::decode(&good[..good.len() - 1]), Err(NetError::Cache(_))));
}

#[test]
fn disk_entries_classify_by_deadline() {
    let entry = || disk_entry(Response::new(200), 0, Duration::from_millis(10), Duration::from_millis(10));
    assert!(matches!(classify_disk_entry(entry(), 10), CacheLookup::Hit(_)));
    assert!(matches!(classify_disk_entry(entry(), 20), CacheLookup::Stale(_)));
    assert!(matches!(classify_disk_entry(entry(), 21), CacheLookup::Miss));
}

#[test]
fn cache_file_names_hash_the_key() {
    let name = cache_file_name("orders|demo");
    assert_eq!(name.len(), 22);
    assert!(name.ends_with(".cache"));
    assert!(name[..16].chars().all(|c| c.is_ascii_hexdigit()));
    assert_ne!(name, cache_file_name("orders|other"));
    assert_eq!(name, cache_file_name("orders|demo"));
}

#[test]
fn cache_key_formula() {
    let request = RequestBuilder::new(HttpMethod::Get, Endpoint::parse("https://api.example.com:8443/v1/x?y=2").unwrap())
        .header("Accept".into(), "application/json".into())
        .build();
    let business = BusinessContext::new("shop".into(), "list".into());
    let key = build_cache_key(&request, &business, &CachePolicy::default());
    assert_eq!(key, "shop|Get|https://api.example.com:8443|/v1/x?y=2|accept=application/json&accept-language=");
    let with_ns = RequestBuilder::new(HttpMethod::Head, Endpoint::parse("http://h/p").unwrap())
        .business_profile(BusinessProfile::new().cache_namespace("tenant".into()))
        .build();
    assert_eq!(
        build_cache_key(&with_ns, &business, &CachePolicy::default()),
        "tenant|Head|http://h|/p|accept=&accept-language="
    );
}

#[test]
fn business_headers_cover_the_context() {
    let mut business = BusinessContext::new("app".into(), "op".into());
    business.tenant_id = Some("t1".into());
    business.trace_id = Some("tr".into());
    business.attributes.insert("Color".into(), "blue".into());
    let h = business.headers();
    assert_eq!(h.get("x-biz-app"), Some("app"));
    assert_eq!(h.get("x-biz-operation"), Some("op"));
    assert_eq!(h.get("x-biz-tenant-id"), Some("t1"));
    assert_eq!(h.get("x-trace-id"), Some("tr"));
    assert_eq!(h.get("x-biz-attr-color"), Some("blue"));
    assert_eq!(h.get("x-biz-region"), None);
}

fn record(host: &str, addrs: &[(&str, Option<&str>, bool)]) -> DnsRecord {
    DnsRecord {
        host: host.into(),
        ttl: Duration::from_secs(1),
        source: "static".into(),
        addresses: addrs
            .iter()
            .map(|(ip, region, v6)| ResolvedAddress {
                ip: ip.to_string(),
                port: 443,
                region: region.map(|r| r.to_string()),
                weight: 100,
                is_ipv6: *v6,
            })
            .collect(),
    }
}

#[test]
fn static_resolver_rotates_and_floors_ttl() {
    let mut resolver = StaticResolver::new().insert(record("h", &[("1", None, false), ("2", None, false)]));
    let endpoint = Endpoint::parse("https://h/").unwrap();
    let business = BusinessContext::new("a".into(), "b".into());
    let policy = DnsPolicy::default();
    let first = resolver.resolve(&endpoint, &business, &policy).unwrap();
    let second = resolver.resolve(&endpoint, &business, &policy).unwrap();
    assert_eq!(first.addresses[0].ip, "1");
    assert_eq!(second.addresses[0].ip, "2");
    assert_eq!(first.ttl.as_millis(), 5_000);
}

#[test]
fn static_resolver_region_first_and_errors() {
    let mut resolver = StaticResolver::new()
        .insert(record("h", &[("1", Some("us"), false), ("2", Some("cn"), false)]))
        .insert(record("empty", &[]));
    let mut business = BusinessContext::new("a".into(), "b".into());
    business.region = Some("cn".into());
    let mut policy = DnsPolicy::default();
    policy.strategy = atlas_net::DnsSelectionStrategy::RegionFirst;
    let out = resolver.resolve(&Endpoint::parse("https://h/").unwrap(), &business, &policy).unwrap();
    assert_eq!(out.addresses[0].ip, "2");
    match resolver.resolve(&Endpoint::parse("https://nowhere/").unwrap(), &business, &policy) {
        Err(NetError::Dns(m)) => assert_eq!(m, "no dns record found for host `nowhere`"),
        other => panic!("unexpected {other:?}"),
    }
    match resolver.resolve(&Endpoint::parse("https://empty/").unwrap(), &business, &policy) {
        Err(NetError::Dns(m)) => assert_eq!(m, "dns record for host `empty` has no addresses"),
        other => panic!("unexpected {other:?}"),
    }
}

#[test]
fn passthrough_resolver_uses_the_host() {
    let mut business = BusinessContext::new("a".into(), "b".into());
    business.region = Some("eu".into());
    let out = PassthroughResolver
        .resolve(&Endpoint::parse("http://svc.local:81/").unwrap(), &business, &DnsPolicy::default())
        .unwrap();
    assert_eq!(out.source, "passthrough");
    assert_eq!(out.addresses.len(), 1);
    assert_eq!(out.addresses[0].ip, "svc.local");
    assert_eq!(out.addresses[0].port, 81);
    assert_eq!(out.addresses[0].region.as_deref(), Some("eu"));
}

fn node(name: &str, region: &str, weight: u16, healthy: bool, tags: &[&str]) -> EdgeNode {
    EdgeNode {
        name: name.into(),
        domain: format!("{name}.cdn.net"),
        region: Some(region.into()),
        weight,
        healthy,
        tags: tags.iter().map(|t| t.to_string()).collect(),
    }
}

#[test]
fn cdn_router_prefers_region_and_falls_back_to_origin() {
    let mut router = RuleBasedCdnRouter::new(vec![
        node("us", "us-1", 100, true, &["orders"]),
        node("cn", "cn-1", 100, true, &["orders"]),
        node("down", "cn-1", 100, false, &["orders"]),
    ]);
    let origin = Endpoint::parse("https://api.example.com/orders").unwrap();
    let mut business = BusinessContext::new("a".into(), "b".into());
    business.region = Some("cn-1".into());
    let policy = atlas_net::CdnPolicy {
        strategy: atlas_net::CdnStrategy::RegionAffinity,
        fallback_to_origin: true,
        sticky_by_region: true,
    };
    let decision = router.route(&origin, &business, &["orders".to_string()], &policy).unwrap();
    assert_eq!(decision.node_name.as_deref(), Some("cn"));
    assert_eq!(decision.selected.host(), "cn.cdn.net");
    assert_eq!(decision.fallbacks.last().unwrap().host(), "api.example.com");
    let direct = DirectCdnRouter.route(&origin, &business, &[], &policy).unwrap();
    assert_eq!(direct.selected.host(), "api.example.com");
    assert_eq!(direct.node_name, None);
}

#[test]
fn plans_cover_the_remaining_bytes() {
    let manager = ResumableTransferManager::new(ResumePolicy { enabled: true, chunk_size: 4, parallelism: 1, verify_etag: true });
    let s = spec("t", 10);
    let chunks = manager.plan(&s, None);
    let ranges: Vec<(u64, u64)> = chunks.iter().map(|c| (c.range.start, c.range.end)).collect();
    assert_eq!(ranges, vec![(0, 4), (4, 8), (8, 10)]);
    assert_eq!(chunks.iter().map(|c| c.index).collect::<Vec<_>>(), vec![0, 1, 2]);
    assert_eq!(chunks.iter().map(|c| c.range.len()).sum::<u64>(), 10);
    let checkpoint = manager.checkpoint_after(&s, &chunks[0], None);
    assert_eq!(checkpoint.next_offset, 4);
    assert_eq!(checkpoint.completed, vec![ByteRange { start: 0, end: 4 }]);
    let rest = manager.plan(&s, Some(&checkpoint));
    assert_eq!(rest[0].range, ByteRange { start: 4, end: 8 });
    assert_eq!(rest[0].index, 0);
    let next = manager.checkpoint_after(&s, &rest[0], Some(&checkpoint));
    assert_eq!(next.completed.len(), 2);
    assert!(manager.plan(&s, Some(&manager.checkpoint_after(&s, &chunks[2], None))).is_empty());
    assert_eq!(ByteRange { start: 5, end: 3 }.len(), 0);
}

#[test]
fn segment_bodies_carry_their_offset() {
    let manager = ResumableTransferManager::new(ResumePolicy::default());
    let chunk = TransferChunk { index: 1, range: ByteRange { start: 256, end: 300 } };
    match manager.build_segment_body(&chunk, vec![1, 2], 300) {
        Body::Segment { offset, total_size, bytes } => {
            assert_eq!(offset, 256);
            assert_eq!(total_size, Some(300));
            assert_eq!(bytes, vec![1, 2]);
        }
        other => panic!("unexpected {other:?}"),
    }
}

#[test]
fn resume_store_reads_back_what_was_saved() {
    let mut store = MemoryResumeStore::new();
    let manager = ResumableTransferManager::new(ResumePolicy::default());
    let s = spec("x", 10);
    let chunk = TransferChunk { index: 0, range: ByteRange { start: 0, end: 5 } };
    store.save(manager.checkpoint_after(&s, &chunk, None)).unwrap();
    let loaded = store.load("x").unwrap().unwrap();
    assert_eq!(loaded.next_offset, 5);
    assert!(store.load("y").unwrap().is_none());
    store.clear("x").unwrap();
    assert!(store.load("x").unwrap().is_none());
}

#[test]
fn signers_add_their_credentials() {
    let business = BusinessContext::new("a".into(), "b".into());
    let mut request = get_request("https://h/");
    ApiKeySigner::new("X-Api-Key", "k1").sign(&mut request, &business).unwrap();
    assert_eq!(request.headers.get("x-api-key"), Some("k1"));
    BearerTokenSigner::new("tok").sign(&mut request, &business).unwrap();
    assert_eq!(request.headers.get("authorization"), Some("Bearer tok"));
    let session = SessionSigner::new("sid", "s1");
    session.sign(&mut request, &business).unwrap();
    assert_eq!(request.headers.get("cookie"), Some("sid=s1"));
    SessionSigner::new("lang", "en").sign(&mut request, &business).unwrap();
    assert_eq!(request.headers.get("cookie"), Some("sid=s1; lang=en"));
    HeaderSigner::new(Headers::new().with("x-sig".into(), "v".into())).sign(&mut request, &business).unwrap();
    assert_eq!(request.headers.get("x-sig"), Some("v"));
    assert_eq!(session.name(), "session");
}

#[test]
fn authenticator_applies_chains_in_order() {
    let business = BusinessContext::new("a".into(), "b".into());
    let auth = Authenticator::new()
        .register("partner", ApiKeySigner::new("x-key", "1"))
        .register("partner", BearerTokenSigner::new("t"));
    let mut request = get_request("https://h/");
    let names = auth.sign(&mut request, &business, Some("partner"), true).unwrap();
    assert_eq!(names, vec!["api-key".to_string(), "bearer".to_string()]);
    let mut other = get_request("https://h/");
    assert_eq!(auth.sign(&mut other, &business, None, false).unwrap(), Vec::<String>::new());
    assert_eq!(other.headers.iter().len(), 0);
    match auth.sign(&mut other, &business, None, true) {
        Err(NetError::Auth(m)) => assert_eq!(m, "missing auth chain for scope `default`"),
        other => panic!("unexpected {other:?}"),
    }
}

#[test]
fn delegating_signer_runs_the_callers_closure() {
    let business = BusinessContext::new("checkout".into(), "svc".into());
    let signer = DelegatingSigner::new("hmac", |request: &mut Request, context: &BusinessContext| {
        request.headers.insert("x-signed-by".into(), context.app.clone());
        Ok(())
    });
    assert_eq!(signer.name(), "hmac");
    let auth = Authenticator::new()
        .register("default", signer)
        .register("default", DelegatingSigner::new("deny", |_: &mut Request, _: &BusinessContext| {
            Err(NetError::Auth("denied".into()))
        }));
    let mut request = get_request("https://h/");
    match auth.sign(&mut request, &business, None, true) {
        Err(NetError::Auth(m)) => assert_eq!(m, "denied"),
        other => panic!("unexpected {other:?}"),
    }
    assert_eq!(request.headers.get("x-signed-by"), Some("checkout"));
}

#[test]
fn builtin_middleware_shapes_the_request() {
    let business = BusinessContext::new("a".into(), "b".into());
    let options = RuntimeOptions::new("svc".into());
    let context = MiddlewareContext { request_id: "req-1".into(), business: &business, options: &options };
    let mut request = get_request("https://h/");
    StaticHeadersMiddleware::new(Headers::new().with("x-a".into(), "1".into())).on_request(&mut request, &context).unwrap();
    TimeoutMiddleware::new(Duration::from_secs(2)).on_request(&mut request, &context).unwrap();
    let mut entries = StrMap::new();
    entries.insert("team".to_string(), "core".to_string());
    MetadataMiddleware::new(entries).on_request(&mut request, &context).unwrap();
    RequestIdMiddleware.on_request(&mut request, &context).unwrap();
    assert_eq!(request.headers.get("x-a"), Some("1"));
    assert_eq!(request.timeout.as_millis(), 2_000);
    assert_eq!(request.metadata.get("team").map(|s| s.as_str()), Some("core"));
    assert_eq!(request.headers.get("x-request-id"), Some("req-1"));
    let mut tagged = get_request("https://h/");
    tagged.headers.insert("X-Request-Id".into(), "mine".into());
    RequestIdMiddleware.on_request(&mut tagged, &context).unwrap();
    assert_eq!(tagged.headers.get("x-request-id"), Some("mine"));
    assert_eq!(RequestIdMiddleware.name(), "request-id");
}

#[test]
fn events_are_collected_in_order() {
    let mut sink = MemoryEventSink::new();
    sink.record(ClientEvent::new(EventLevel::Info, "a".into(), "r".into(), "first".into())).unwrap();
    sink.record(
        ClientEvent::new(EventLevel::Warn, "b".into(), "r".into(), "second".into()).field("k".into(), "v".into()),
    )
    .unwrap();
    let events = sink.snapshot().unwrap();
    assert_eq!(events.len(), 2);
    assert_eq!(events[0].message, "first");
    assert_eq!(events[1].level, EventLevel::Warn);
    assert_eq!(events[1].fields.get("k").map(|s| s.as_str()), Some("v"));
}

#[test]
fn transports_answer_or_report_missing_routes() {
    let fixed = StaticResponseTransport::new(Response::new(418));
    let request = get_request("https://h/x");
    assert_eq!(fixed.execute(&request, &context_for("https://h/x", 1)).unwrap().status, 418);
    let mock = MockTransport::new().route(HttpMethod::Get, "h", "x", |_r: &Request, c: &TransportContext| {
        Ok(Response::new(200 + c.attempt as u16))
    });
    assert_eq!(mock.execute(&request, &context_for("https://h/x", 3)).unwrap().status, 203);
    match mock.execute(&request, &context_for("https://h/y", 1)) {
        Err(NetError::Transport(m)) => assert_eq!(m, "no mock route registered for Get h/y"),
        other => panic!("unexpected {other:?}"),
    }
}

#[test]
fn connect_ports_default_by_scheme() {
    assert_eq!(target_port(&Endpoint::parse("http://h/").unwrap()), 80);
    assert_eq!(target_port(&Endpoint::parse("https://h/").unwrap()), 443);
    assert_eq!(target_port(&Endpoint::parse("http://h:8080/").unwrap()), 8080);
}

#[test]
fn cache_phases_follow_the_mode() {
    let hit = || CacheLookup::Hit(Response::new(200));
    assert!(matches!(cache_phase(CacheMode::Standard, hit()), CachePhase::Serve(_)));
    assert!(matches!(cache_phase(CacheMode::Refresh, hit()), CachePhase::Proceed(None)));
    assert!(matches!(
        cache_phase(CacheMode::Standard, CacheLookup::Stale(Response::new(200))),
        CachePhase::Proceed(Some(_))
    ));
    assert!(matches!(cache_phase(CacheMode::Standard, CacheLookup::Miss), CachePhase::Proceed(None)));
    match cache_phase(CacheMode::OnlyIfCached, CacheLookup::Miss) {
        CachePhase::Refuse(NetError::PolicyViolation(m)) => {
            assert_eq!(m, "cache-only mode enabled but cache entry missing")
        }
        other => panic!("unexpected {other:?}"),
    }
}

#[test]
fn attempts_walk_the_addresses() {
    let addrs: Vec<ResolvedAddress> = record("h", &[("1", None, false), ("2", None, false)]).addresses;
    assert_eq!(address_for_attempt(&addrs, 1).unwrap().ip, "1");
    assert_eq!(address_for_attempt(&addrs, 2).unwrap().ip, "2");
    assert_eq!(address_for_attempt(&addrs, 5).unwrap().ip, "2");
    match address_for_attempt(&Vec::new(), 1) {
        Err(NetError::Dns(m)) => assert_eq!(m, "dns returned no usable addresses"),
        other => panic!("unexpected {other:?}"),
    }
}

#[test]
fn failed_attempts_retry_fall_back_or_fail() {
    let key = Some("k".to_string());
    assert!(matches!(
        error_step(NetError::transport("x".into()), 1, 3, None, &key, None),
        ErrorStep::Retry(NetError::Transport(_))
    ));
    match error_step(NetError::transport("x".into()), 3, 3, Some(Response::new(200)), &key, None) {
        ErrorStep::ServeStale(r) => {
            assert!(r.metrics.cache_hit);
            assert_eq!(r.provenance.cache_key.as_deref(), Some("k"));
        }
        other => panic!("unexpected {other:?}"),
    }
    match error_step(NetError::transport("late".into()), 3, 3, None, &key, Some(NetError::transport("early".into()))) {
        ErrorStep::Fail(e) => assert_eq!(e.to_string(), "retry exhausted after 3 attempts: transport error: early"),
        other => panic!("unexpected {other:?}"),
    }
    match error_step(NetError::Auth("no".into()), 1, 3, None, &key, None) {
        ErrorStep::Fail(NetError::Auth(m)) => assert_eq!(m, "no"),
        other => panic!("unexpected {other:?}"),
    }
}

#[test]
fn range_headers_name_the_chunk() {
    let chunk = TransferChunk { index: 0, range: ByteRange { start: 8, end: 16 } };
    assert_eq!(download_range(&chunk), "bytes=8-15");
    assert_eq!(upload_range(&chunk, 20), "bytes 8-15/20");
}

#[test]
fn default_cache_store_round_trip() {
    let mut cache = MemoryCache::default();
    cache.put("key".into(), Response::new(200), Duration::from_secs(60), Duration::from_secs(0)).unwrap();
    assert!(matches!(cache.get("key").unwrap(), CacheLookup::Hit(_)));
    cache.invalidate("key").unwrap();
    assert!(matches!(cache.get("key").unwrap(), CacheLookup::Miss));
}

#[test]
fn decoded_bodies_follow_their_kind() {
    assert!(matches!(decode_body(0, 0, 0, vec![]), Ok(Body::Empty)));
    assert!(matches!(decode_body(1, 0, 0, vec![1]), Ok(Body::Bytes(b)) if b == vec![1]));
    assert!(matches!(decode_body(2, 0, 0, b"hi".to_vec()), Ok(Body::Text(t)) if t == "hi"));
    assert!(matches!(
        decode_body(3, 7, u64::MAX, vec![2]),
        Ok(Body::Segment { offset: 7, total_size: None, .. })
    ));
    match decode_body(2, 0, 0, vec![0xff, 0xfe]) {
        Err(NetError::Cache(m)) => {
            assert!(m.starts_with("invalid text body in cache: "));
            assert_eq!(m, format!("invalid text body in cache: {}", String::from_utf8(vec![0xff, 0xfe]).unwrap_err()));
        }
        other => panic!("unexpected {other:?}"),
    }
    match decode_body(9, 0, 0, vec![]) {
        Err(NetError::Cache(m)) => assert_eq!(m, "unsupported cached body kind `9`"),
        other => panic!("unexpected {other:?}"),
    }
}

#[test]
fn bodies_convert_from_text_and_bytes() {
    assert!(matches!(Body::from("abc".to_string()), Body::Text(t) if t == "abc"));
    assert!(matches!(Body::from(vec![1u8, 2]), Body::Bytes(b) if b == vec![1, 2]));
    assert!(matches!(Body::default(), Body::Empty));
}

#[test]
fn maps_iterate_in_key_order() {
    let h = Headers::new()
        .with("X-Zeta".into(), "1".into())
        .with("accept".into(), "2".into())
        .with("B".into(), "3".into());
    let names: Vec<&str> = h.iter().iter().map(|(k, _)| k.as_str()).collect();
    assert_eq!(names, vec!["accept", "b", "x-zeta"]);
    let mut m: StrMap<u8> = StrMap::new();
    m.insert("pear".to_string(), 1);
    m.insert("apple".to_string(), 2);
    m.insert("apples".to_string(), 3);
    m.insert("Zoo".to_string(), 4);
    let keys: Vec<&str> = m.entries().iter().map(|(k, _)| k.as_str()).collect();
    assert_eq!(keys, vec!["Zoo", "apple", "apples", "pear"]);
}

#[test]
fn zero_chunk_size_plans_only_finished_transfers() {
    let mut options = RuntimeOptions::new("svc".into());
    options.resume.chunk_size = 0;
    let client = atlas_net::AtlasClient::builder("svc").options(options).build();
    assert!(client.plan_transfer(&spec("empty", 0)).unwrap().is_empty());
    match client.plan_transfer(&spec("full", 10)) {
        Err(NetError::InvalidConfig(m)) => assert_eq!(m, "resume chunk size is zero while bytes remain"),
        other => panic!("unexpected {other:?}"),
    }
}

struct PlainSigner;

impl Signer for PlainSigner {
    fn name(&self) -> &str {
        "plain"
    }

    fn sign(&self, _request: &mut Request, _context: &BusinessContext) -> Result<(), NetError> {
        Ok(())
    }
}

#[test]
fn plain_signers_join_chains() {
    let business = BusinessContext::new("a".into(), "b".into());
    let auth = Authenticator::new().register("default", PlainSigner);
    let mut request = get_request("https://h/");
    assert_eq!(auth.sign(&mut request, &business, None, true).unwrap(), vec!["plain".to_string()]);
}
