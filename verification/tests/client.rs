use std::sync::atomic::{AtomicUsize, Ordering};
use std::sync::Arc;

use atlas_net::{
    ApiKeySigner, AtlasClient, Authenticator, Body, CacheMode, Endpoint, HttpMethod, MockTransport, NetError,
    Request, RequestBuilder, RequestIdMiddleware, Response, RuntimeOptions, TimeoutMiddleware, TransportContext,
};

fn orders() -> Request {
    RequestBuilder::new(HttpMethod::Get, Endpoint::parse("https://api.example.com/orders").unwrap()).build()
}

fn counting_transport(statuses: Vec<u16>) -> (MockTransport, Arc<AtomicUsize>) {
    let calls = Arc::new(AtomicUsize::new(0));
    let seen = calls.clone();
    let transport = MockTransport::new().route(
        HttpMethod::Get,
        "api.example.com",
        "/orders",
        move |_r: &Request, _c: &TransportContext| {
            let n = seen.fetch_add(1, Ordering::SeqCst);
            let status = statuses[n.min(statuses.len() - 1)];
            Ok(Response::new(status).with_body(Body::from_str_slice("ok")))
        },
    );
    (transport, calls)
}

#[test]
fn retryable_statuses_are_retried_with_backoff() {
    let (transport, calls) = counting_transport(vec![503, 503, 200]);
    let mut client = AtlasClient::builder("svc").transport(transport).build();
    let envelope = client.send(orders()).unwrap();
    assert_eq!(envelope.response.status, 200);
    assert_eq!(envelope.report.attempts, 3);
    assert_eq!(envelope.response.metrics.attempt, 3);
    let waits: Vec<u128> = envelope.report.backoffs.iter().map(|d| d.as_millis()).collect();
    assert_eq!(waits, vec![50, 100]);
    assert_eq!(calls.load(Ordering::SeqCst), 3);
}

#[test]
fn attempts_never_exceed_the_budget() {
    let (transport, calls) = counting_transport(vec![503]);
    let mut client = AtlasClient::builder("svc").transport(transport).build();
    let envelope = client.send(orders()).unwrap();
    assert_eq!(envelope.response.status, 503);
    assert_eq!(envelope.report.attempts, 3);
    assert_eq!(envelope.report.backoffs.len(), 2);
    assert_eq!(calls.load(Ordering::SeqCst), 3);
}

#[test]
fn requests_get_sequential_ids() {
    let (transport, _) = counting_transport(vec![404]);
    let mut options = RuntimeOptions::new("svc".into());
    options.cache.mode = CacheMode::Disabled;
    let mut client = AtlasClient::builder("svc").options(options).transport(transport).build();
    let first = client.send(orders()).unwrap();
    let second = client.send(orders()).unwrap();
    assert_eq!(first.report.request_id, "req-0000000001");
    assert_eq!(second.report.request_id, "req-0000000002");
    let named = RequestBuilder::new(HttpMethod::Get, Endpoint::parse("https://api.example.com/orders").unwrap())
        .id("mine".into())
        .build();
    assert_eq!(client.send(named).unwrap().report.request_id, "mine");
}

#[test]
fn transport_errors_exhaust_into_one_error() {
    let transport = MockTransport::new().route(
        HttpMethod::Get,
        "api.example.com",
        "/orders",
        |_r: &Request, c: &TransportContext| Err(NetError::Transport(format!("down {}", c.attempt))),
    );
    let mut client = AtlasClient::builder("svc").transport(transport).build();
    match client.send(orders()) {
        Err(NetError::RetryExhausted { attempts, last_error }) => {
            assert_eq!(attempts, 3);
            assert_eq!(last_error.to_string(), "transport error: down 2");
        }
        Err(other) => panic!("unexpected {other:?}"),
        Ok(_) => panic!("unexpected success"),
    }
}

#[test]
fn non_retryable_errors_stop_at_once() {
    let calls = Arc::new(AtomicUsize::new(0));
    let seen = calls.clone();
    let transport = MockTransport::new().route(
        HttpMethod::Get,
        "api.example.com",
        "/orders",
        move |_r: &Request, _c: &TransportContext| {
            seen.fetch_add(1, Ordering::SeqCst);
            Err(NetError::PolicyViolation("nope".into()))
        },
    );
    let mut client = AtlasClient::builder("svc").transport(transport).build();
    match client.send(orders()) {
        Err(NetError::PolicyViolation(m)) => assert_eq!(m, "nope"),
        Err(other) => panic!("unexpected {other:?}"),
        Ok(_) => panic!("unexpected success"),
    }
    assert_eq!(calls.load(Ordering::SeqCst), 1);
}

#[test]
fn missing_route_is_a_transport_error() {
    let mut client = AtlasClient::builder("svc").transport(MockTransport::new()).build();
    match client.send(orders()) {
        Err(NetError::RetryExhausted { attempts, last_error }) => {
            assert_eq!(attempts, 3);
            assert_eq!(last_error.to_string(), "transport error: no mock route registered for Get api.example.com/orders");
        }
        Err(other) => panic!("unexpected {other:?}"),
        Ok(_) => panic!("unexpected success"),
    }
}

#[test]
fn required_auth_without_chain_is_refused() {
    let mut options = RuntimeOptions::new("svc".into());
    options.auth.required = true;
    let mut client = AtlasClient::builder("svc").options(options).build();
    match client.send(orders()) {
        Err(NetError::Auth(m)) => assert_eq!(m, "missing auth chain for scope `default`"),
        Err(other) => panic!("unexpected {other:?}"),
        Ok(_) => panic!("unexpected success"),
    }
}

#[test]
fn auth_chain_is_reported() {
    let (transport, _) = counting_transport(vec![200]);
    let mut client = AtlasClient::builder("svc")
        .authenticator(Authenticator::new().register("default", ApiKeySigner::new("x-key", "s3cret")))
        .transport(transport)
        .build();
    let envelope = client.send(orders()).unwrap();
    assert_eq!(envelope.report.auth_chain, vec!["api-key".to_string()]);
    let auth_event = envelope.report.events.iter().find(|e| e.stage == "auth").unwrap();
    assert_eq!(auth_event.message, "applied auth chain for scope `default`");
    assert_eq!(auth_event.fields.get("chain").map(|s| s.as_str()), Some("api-key"));
}

#[test]
fn cache_only_mode_refuses_a_miss() {
    let mut options = RuntimeOptions::new("svc".into());
    options.cache.mode = CacheMode::OnlyIfCached;
    let mut client = AtlasClient::builder("svc").options(options).build();
    match client.send(orders()) {
        Err(NetError::PolicyViolation(m)) => assert_eq!(m, "cache-only mode enabled but cache entry missing"),
        Err(other) => panic!("unexpected {other:?}"),
        Ok(_) => panic!("unexpected success"),
    }
}

#[test]
fn fresh_cache_hits_skip_the_network() {
    let (transport, calls) = counting_transport(vec![200]);
    let mut client = AtlasClient::builder("svc").transport(transport).build();
    let first = client.send(orders()).unwrap();
    let second = client.send(orders()).unwrap();
    assert!(!first.report.cache.hit);
    assert!(second.report.cache.hit);
    assert_eq!(second.report.attempts, 0);
    assert_eq!(second.response.metrics.attempt, 0);
    assert!(second.response.metrics.cache_hit);
    assert_eq!(second.response.provenance.cache_key, first.report.cache.key);
    assert_eq!(calls.load(Ordering::SeqCst), 1);
}

#[test]
fn stale_entries_cover_failures() {
    let calls = Arc::new(AtomicUsize::new(0));
    let seen = calls.clone();
    let transport = MockTransport::new().route(
        HttpMethod::Get,
        "api.example.com",
        "/orders",
        move |_r: &Request, _c: &TransportContext| {
            if seen.fetch_add(1, Ordering::SeqCst) == 0 {
                Ok(Response::new(200).with_body(Body::from_str_slice("cached")))
            } else {
                Err(NetError::Transport("offline".into()))
            }
        },
    );
    let mut options = RuntimeOptions::new("svc".into());
    options.cache.default_ttl = atlas_net::Duration::from_nanos(0);
    options.cache.stale_if_error = atlas_net::Duration::from_secs(60);
    let mut client = AtlasClient::builder("svc").options(options).transport(transport).build();
    client.send(orders()).unwrap();
    let start = atlas_net::Instant::now().as_nanos();
    while atlas_net::Instant::now().as_nanos() < start + 2_000_000 {}
    let envelope = client.send(orders()).unwrap();
    assert!(envelope.report.cache.hit);
    assert!(envelope.report.cache.stale);
    assert!(envelope.response.metrics.cache_hit);
    assert_eq!(envelope.response.body.into_bytes(), b"cached".to_vec());
    assert_eq!(calls.load(Ordering::SeqCst), 4);
}

#[test]
fn responses_record_where_they_came_from() {
    let (transport, _) = counting_transport(vec![200]);
    let mut client = AtlasClient::builder("svc").transport(transport).build();
    let envelope = client.send(orders()).unwrap();
    let p = &envelope.response.provenance;
    assert_eq!(p.original_endpoint.as_ref().unwrap().host(), "api.example.com");
    assert_eq!(p.selected_endpoint.as_ref().unwrap().port(), Some(443));
    assert_eq!(p.resolved_ip.as_deref(), Some("api.example.com"));
    assert_eq!(envelope.report.target.as_deref(), Some("https://api.example.com/orders"));
    assert_eq!(envelope.response.metrics.bytes_in, 2);
}

#[test]
fn a_default_client_answers_no_content_from_the_origin() {
    let mut client = AtlasClient::builder("svc").build();
    let envelope = client.send(orders()).unwrap();
    assert_eq!(envelope.response.status, 204);
    assert!(!envelope.report.cache.hit);
    assert_eq!(envelope.report.attempts, 1);
    assert!(envelope.report.auth_chain.is_empty());
    assert_eq!(envelope.report.cdn_node, None);
    assert_eq!(envelope.report.resolved_ip.as_deref(), Some("api.example.com"));
    assert_eq!(envelope.report.target.as_deref(), Some("https://api.example.com/orders"));
    let again = client.send(orders()).unwrap();
    assert!(again.report.cache.hit);
    assert_eq!(again.response.status, 204);
}

#[test]
fn request_middleware_runs_first_and_in_order() {
    let mut client = AtlasClient::builder("svc")
        .middleware(TimeoutMiddleware::new(atlas_net::Duration::from_secs(3)))
        .middleware(RequestIdMiddleware)
        .build();
    let envelope = client.send(orders()).unwrap();
    let events = &envelope.report.events;
    assert!(events.len() >= 2);
    assert_eq!(events[0].stage, "middleware.request");
    assert_eq!(events[0].message, "middleware `timeout` applied to request");
    assert_eq!(events[1].stage, "middleware.request");
    assert_eq!(events[1].message, "middleware `request-id` applied to request");
    assert!(events[2..].iter().all(|e| e.stage != "middleware.request"));
    let n = events.len();
    assert_eq!(events[n - 3].message, "middleware `timeout` applied to response");
    assert_eq!(events[n - 2].message, "middleware `request-id` applied to response");
    assert_eq!(events[n - 1].stage, "response");
}

#[test]
fn a_default_client_downloads_through_its_own_transport() {
    let mut client = AtlasClient::builder("svc").build();
    let spec = atlas_net::TransferSpec {
        transfer_id: "t-1".into(),
        total_size: 1024 * 1024,
        etag: None,
        content_type: None,
        business_tags: vec![],
    };
    let request = atlas_net::DownloadRequest {
        request: RequestBuilder::new(HttpMethod::Get, Endpoint::parse("https://files.example.com/blob").unwrap()).build(),
        spec,
    };
    let outcome = client.download(request).unwrap();
    assert_eq!(outcome.chunks.len(), 4);
    assert_eq!(outcome.checkpoints.len(), 4);
    assert!(outcome.bytes.is_empty());
    assert_eq!(outcome.final_response.status, 204);
}

#[test]
fn an_empty_download_makes_no_request() {
    let mut client = AtlasClient::builder("svc").build();
    let request = atlas_net::DownloadRequest {
        request: RequestBuilder::new(HttpMethod::Get, Endpoint::parse("https://files.example.com/none").unwrap()).build(),
        spec: atlas_net::TransferSpec {
            transfer_id: "t-0".into(),
            total_size: 0,
            etag: None,
            content_type: None,
            business_tags: vec![],
        },
    };
    let outcome = client.download(request).unwrap();
    assert!(outcome.chunks.is_empty());
    assert!(outcome.bytes.is_empty());
    assert_eq!(outcome.final_response.status, 204);
}
