use std::sync::atomic::{AtomicUsize, Ordering};
use std::sync::Arc;

use atlas_net::{
    AtlasClient, Authenticator, BearerTokenSigner, Body, BusinessContext, BusinessProfile, CdnPolicy, CdnStrategy,
    DnsRecord, DownloadRequest, Duration, EdgeNode, Endpoint, HttpMethod, Middleware, MiddlewareContext,
    MockTransport, NetError, Request, RequestBuilder, ResolvedAddress, Response, RuleBasedCdnRouter, RuntimeOptions,
    StaticResolver, TransferSpec, UploadRequest,
};

fn build_resolver() -> StaticResolver {
    StaticResolver::new()
        .insert(DnsRecord {
            host: "edge-cn.example.com".into(),
            ttl: Duration::from_secs(30),
            source: "static".into(),
            addresses: vec![ResolvedAddress {
                ip: "10.0.0.10".into(),
                port: 443,
                region: Some("cn-east-1".into()),
                weight: 100,
                is_ipv6: false,
            }],
        })
        .insert(DnsRecord {
            host: "api.example.com".into(),
            ttl: Duration::from_secs(30),
            source: "static".into(),
            addresses: vec![ResolvedAddress {
                ip: "10.0.0.20".into(),
                port: 443,
                region: Some("origin".into()),
                weight: 100,
                is_ipv6: false,
            }],
        })
}

#[test]
fn pipeline_supports_auth_cache_dns_and_cdn() {
    let calls = Arc::new(AtomicUsize::new(0));
    let transport_calls = calls.clone();

    let transport = MockTransport::new().route(
        HttpMethod::Get,
        "edge-cn.example.com",
        "/orders",
        move |request: &Request, context: &atlas_net::TransportContext| {
            transport_calls.fetch_add(1, Ordering::SeqCst);
            let token = request.headers.get("authorization").unwrap_or_default();
            Ok(Response::new(200).with_body(Body::from_text(format!(
                "token={token};target={};ip={}",
                context.target.to_string(),
                context.resolved_ip.clone().unwrap_or_default()
            ))))
        },
    );

    let mut runtime = RuntimeOptions::new("merchant-center".into());
    runtime.cdn = CdnPolicy {
        strategy: CdnStrategy::RegionAffinity,
        fallback_to_origin: true,
        sticky_by_region: true,
    };

    let mut business = BusinessContext::new("merchant-center".into(), "query-orders".into());
    business.region = Some("cn-east-1".into());

    let mut client = AtlasClient::builder("merchant-center")
        .options(runtime)
        .business_context(business)
        .authenticator(Authenticator::new().register("default", BearerTokenSigner::new("token-abc")))
        .resolver(build_resolver())
        .cdn_router(RuleBasedCdnRouter::new(vec![EdgeNode {
            name: "cn-edge".into(),
            domain: "edge-cn.example.com".into(),
            region: Some("cn-east-1".into()),
            weight: 100,
            healthy: true,
            tags: vec!["orders".into()],
        }]))
        .transport(transport)
        .build();

    let request = RequestBuilder::new(HttpMethod::Get, Endpoint::parse("https://api.example.com/orders").unwrap())
        .business_profile(BusinessProfile::new().route_tag("orders".into()))
        .build();

    let first = client.send(request.clone()).unwrap();
    let second = client.send(request).unwrap();

    assert_eq!(first.response.status, 200);
    assert!(String::from_utf8_lossy(&first.response.body.into_bytes()).contains("token-abc"));
    assert_eq!(calls.load(Ordering::SeqCst), 1);
    assert!(second.report.cache.hit);
}

#[test]
fn transfer_manager_plans_resume_chunks() {
    let mut client = AtlasClient::builder("downloader").build();
    let spec = TransferSpec {
        transfer_id: "file-a".into(),
        total_size: 1024 * 1024,
        etag: Some("etag-1".into()),
        content_type: Some("application/octet-stream".into()),
        business_tags: vec!["video".into()],
    };

    let chunks = client.plan_transfer(&spec).unwrap();
    assert!(!chunks.is_empty());

    let checkpoint = client.save_transfer_progress(&spec, &chunks[0]).unwrap();
    assert_eq!(checkpoint.next_offset, chunks[0].range.end);

    let remaining = client.plan_transfer(&spec).unwrap();
    assert!(remaining[0].range.start >= checkpoint.next_offset);
}

#[test]
fn middleware_and_transfer_apis_work_together() {
    struct ResponseHeaderMiddleware;

    impl Middleware for ResponseHeaderMiddleware {
        fn name(&self) -> &str {
            "response-header"
        }

        fn on_request(&self, request: &mut Request, _context: &MiddlewareContext<'_>) -> Result<(), NetError> {
            request.headers.insert("x-middleware".into(), "on".into());
            Ok(())
        }

        fn on_response(
            &self,
            _request: &Request,
            response: &mut Response,
            _context: &MiddlewareContext<'_>,
        ) -> Result<(), NetError> {
            response.headers.insert("x-processed-by".into(), "middleware".into());
            Ok(())
        }

        fn on_error(
            &self,
            _request: &Request,
            error: &mut NetError,
            _context: &MiddlewareContext<'_>,
        ) -> Result<(), NetError> {
            if let NetError::Transport(message) = error {
                *message = format!("wrapped:{message}");
            }
            Ok(())
        }
    }

    let transport = MockTransport::new()
        .route(HttpMethod::Get, "files.example.com", "/blob", |request: &Request, _context: &atlas_net::TransportContext| {
            assert_eq!(request.headers.get("x-middleware"), Some("on"));
            let range = request.headers.get("range").unwrap_or_default();
            if let Some((start, end)) = range.strip_prefix("bytes=").and_then(|raw| raw.split_once('-')) {
                let start = start.parse::<usize>().unwrap();
                let end = end.parse::<usize>().unwrap();
                let payload = vec![b'a'; end - start + 1];
                Ok(Response::new(206).with_body(Body::from_bytes(payload)))
            } else {
                Ok(Response::new(200).with_body(Body::from_bytes(vec![b'a'; 4])))
            }
        })
        .route(HttpMethod::Put, "upload.example.com", "/blob", |_request: &Request, _context: &atlas_net::TransportContext| {
            Ok(Response::new(201).with_body(Body::from_str_slice("uploaded")))
        });

    let mut client = AtlasClient::builder("asset-center")
        .middleware(ResponseHeaderMiddleware)
        .transport(transport)
        .build();

    let download = client
        .download(DownloadRequest {
            request: RequestBuilder::new(HttpMethod::Get, Endpoint::parse("https://files.example.com/blob").unwrap())
                .resumable(true)
                .build(),
            spec: TransferSpec {
                transfer_id: "blob-a".into(),
                total_size: 8,
                etag: Some("etag-a".into()),
                content_type: Some("application/octet-stream".into()),
                business_tags: vec!["download".into()],
            },
        })
        .unwrap();
    assert_eq!(download.bytes.len(), 8);
    assert_eq!(download.final_response.headers.get("x-processed-by"), Some("middleware"));

    let upload = client
        .upload(UploadRequest {
            request: RequestBuilder::new(HttpMethod::Put, Endpoint::parse("https://upload.example.com/blob").unwrap())
                .resumable(true)
                .build(),
            spec: TransferSpec {
                transfer_id: "blob-b".into(),
                total_size: 8,
                etag: Some("etag-b".into()),
                content_type: Some("application/octet-stream".into()),
                business_tags: vec!["upload".into()],
            },
            bytes: vec![1, 2, 3, 4, 5, 6, 7, 8],
        })
        .unwrap();
    assert_eq!(upload.uploaded_bytes, 8);
    assert_eq!(upload.final_response.status, 201);
}
