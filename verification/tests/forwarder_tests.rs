use webhook_relay::event::WebhookMessage;
use webhook_relay::forwarder::build_request;
use webhook_relay::router::RouteTarget;

fn event() -> WebhookMessage {
    WebhookMessage {
        path: "/webhook/n8n/flow".to_string(),
        method: "POST".to_string(),
        headers: vec![],
        body: "hello".to_string(),
        is_base64_encoded: false,
        query_string_parameters: vec![],
        timestamp: "t".to_string(),
        source_ip: "".to_string(),
    }
}

fn target() -> RouteTarget {
    RouteTarget {
        name: "n8n".to_string(),
        url: "https://n8n.example.com".to_string(),
        timeout_seconds: 30,
    }
}

fn header_names(req: &webhook_relay::forwarder::OutboundRequest) -> Vec<String> {
    req.headers.iter().map(|p| p.0.to_lowercase()).collect()
}

#[test]
fn base64_body_is_decoded() {
    let mut e = event();
    e.body = "aGVsbG8=".to_string();
    e.is_base64_encoded = true;
    let req = build_request(&e, &target(), "/flow");
    assert_eq!(req.body, b"hello".to_vec());
}

#[test]
fn bad_base64_falls_back_to_raw_bytes() {
    let mut e = event();
    e.body = "!!!not-base64!!!".to_string();
    e.is_base64_encoded = true;
    let req = build_request(&e, &target(), "/flow");
    assert_eq!(req.body, b"!!!not-base64!!!".to_vec());
}

#[test]
fn unencoded_body_is_taken_verbatim() {
    let req = build_request(&event(), &target(), "/flow");
    assert_eq!(req.body, b"hello".to_vec());
}

#[test]
fn content_length_is_never_copied() {
    let mut e = event();
    e.headers = vec![("Content-Length".to_string(), "5".to_string())];
    let req = build_request(&e, &target(), "/flow");
    assert!(!header_names(&req).contains(&"content-length".to_string()));
}

#[test]
fn hop_by_hop_headers_are_dropped_whatever_their_casing() {
    let mut e = event();
    e.headers = vec![
        ("HOST".to_string(), "a".to_string()),
        ("Connection".to_string(), "close".to_string()),
        ("keep-ALIVE".to_string(), "x".to_string()),
        ("Proxy-Authenticate".to_string(), "x".to_string()),
        ("proxy-authorization".to_string(), "x".to_string()),
        ("TE".to_string(), "x".to_string()),
        ("Trailers".to_string(), "x".to_string()),
        ("Transfer-Encoding".to_string(), "chunked".to_string()),
        ("Upgrade".to_string(), "h2c".to_string()),
        ("CONTENT-length".to_string(), "5".to_string()),
        ("X-Keep".to_string(), "yes".to_string()),
    ];
    let req = build_request(&e, &target(), "/flow");
    let names = header_names(&req);
    for hop in [
        "host",
        "connection",
        "keep-alive",
        "proxy-authenticate",
        "proxy-authorization",
        "te",
        "trailers",
        "transfer-encoding",
        "upgrade",
        "content-length",
    ] {
        assert!(!names.contains(&hop.to_string()), "{hop} should have been dropped");
    }
    assert!(names.contains(&"x-keep".to_string()));
}

#[test]
fn relay_marker_is_always_set() {
    let req = build_request(&event(), &target(), "/flow");
    let last = req.headers.last().unwrap();
    assert_eq!(last.0, "X-Webhook-Relay");
    assert_eq!(last.1, "webhook-relay/1.0");
}

#[test]
fn forwarded_for_is_set_for_valid_source_ip() {
    let mut e = event();
    e.source_ip = "10.1.2.3".to_string();
    let req = build_request(&e, &target(), "/flow");
    assert!(req
        .headers
        .iter()
        .any(|p| p.0 == "X-Forwarded-For" && p.1 == "10.1.2.3"));
}

#[test]
fn forwarded_for_is_absent_for_empty_source_ip() {
    let req = build_request(&event(), &target(), "/flow");
    assert!(!header_names(&req).contains(&"x-forwarded-for".to_string()));
}

#[test]
fn client_supplied_relay_headers_are_replaced() {
    let mut e = event();
    e.headers = vec![
        ("x-forwarded-for".to_string(), "fake".to_string()),
        ("X-WEBHOOK-RELAY".to_string(), "fake/9".to_string()),
    ];
    let req = build_request(&e, &target(), "/flow");
    assert!(!req.headers.iter().any(|p| p.1 == "fake"));
    assert!(!req.headers.iter().any(|p| p.1 == "fake/9"));
}

#[test]
fn untransmittable_headers_are_skipped() {
    let mut e = event();
    e.headers = vec![
        ("bad name".to_string(), "v".to_string()),
        ("".to_string(), "v".to_string()),
        ("ok".to_string(), "bad\u{7f}value".to_string()),
        ("fine".to_string(), "good value".to_string()),
    ];
    let req = build_request(&e, &target(), "/flow");
    let names = header_names(&req);
    assert!(!names.contains(&"bad name".to_string()));
    assert!(!names.contains(&"ok".to_string()));
    assert!(names.contains(&"fine".to_string()));
}

#[test]
fn url_joins_trimmed_base_and_remainder() {
    let mut t = target();
    t.url = "https://n8n.example.com///".to_string();
    let req = build_request(&event(), &t, "/flow");
    assert_eq!(req.url, "https://n8n.example.com/flow");
}

#[test]
fn query_parameters_are_appended_in_order() {
    let mut e = event();
    e.query_string_parameters = vec![
        ("a".to_string(), "1".to_string()),
        ("b".to_string(), "2".to_string()),
    ];
    let req = build_request(&e, &target(), "/flow");
    assert_eq!(req.url, "https://n8n.example.com/flow?a=1&b=2");
}

#[test]
fn methods_dispatch_case_insensitively() {
    let mut e = event();
    e.method = "get".to_string();
    let req = build_request(&e, &target(), "/");
    assert_eq!(req.method, "GET");
    assert!(!req.has_body);

    e.method = "delete".to_string();
    let req = build_request(&e, &target(), "/");
    assert_eq!(req.method, "DELETE");
    assert!(!req.has_body);

    e.method = "Put".to_string();
    let req = build_request(&e, &target(), "/");
    assert_eq!(req.method, "PUT");
    assert!(req.has_body);

    e.method = "patch".to_string();
    let req = build_request(&e, &target(), "/");
    assert_eq!(req.method, "PATCH");
    assert!(req.has_body);
}

#[test]
fn unknown_method_falls_back_to_post_with_body() {
    let mut e = event();
    e.method = "FETCH".to_string();
    let req = build_request(&e, &target(), "/");
    assert_eq!(req.method, "POST");
    assert!(req.has_body);
}

#[test]
fn timeout_comes_from_the_target() {
    let mut t = target();
    t.timeout_seconds = 7;
    let req = build_request(&event(), &t, "/");
    assert_eq!(req.timeout_seconds, 7);
}
