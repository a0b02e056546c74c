use webhook_relay::event::WebhookMessage;
use webhook_relay::json::{decode_event, encode_event};

fn sample_event() -> WebhookMessage {
    WebhookMessage {
        path: "/webhook/n8n/flow".to_string(),
        method: "POST".to_string(),
        headers: vec![
            ("Content-Type".to_string(), "application/json".to_string()),
            ("X-Hub-Signature".to_string(), "sha1=abc".to_string()),
        ],
        body: "{\"a\":1}".to_string(),
        is_base64_encoded: false,
        query_string_parameters: vec![("k".to_string(), "v".to_string())],
        timestamp: "2024-01-01T00:00:00Z".to_string(),
        source_ip: "10.0.0.1".to_string(),
    }
}

fn assert_events_equal(a: &WebhookMessage, b: &WebhookMessage) {
    assert_eq!(a.path, b.path);
    assert_eq!(a.method, b.method);
    assert_eq!(a.headers, b.headers);
    assert_eq!(a.body, b.body);
    assert_eq!(a.is_base64_encoded, b.is_base64_encoded);
    assert_eq!(a.query_string_parameters, b.query_string_parameters);
    assert_eq!(a.timestamp, b.timestamp);
    assert_eq!(a.source_ip, b.source_ip);
}

#[test]
fn round_trip_preserves_all_fields() {
    let e = sample_event();
    let text = encode_event(&e);
    let back = decode_event(&text).unwrap();
    assert_events_equal(&e, &back);
}

#[test]
fn round_trip_preserves_empty_maps() {
    let e = WebhookMessage {
        path: "/webhook/a".to_string(),
        method: "GET".to_string(),
        headers: vec![],
        body: "".to_string(),
        is_base64_encoded: true,
        query_string_parameters: vec![],
        timestamp: "".to_string(),
        source_ip: "".to_string(),
    };
    let text = encode_event(&e);
    let back = decode_event(&text).unwrap();
    assert_events_equal(&e, &back);
}

#[test]
fn round_trip_preserves_escapes() {
    let e = WebhookMessage {
        path: "/webhook/a".to_string(),
        method: "POST".to_string(),
        headers: vec![("A".to_string(), "line1\nline2\t\"quoted\" \\slash\\".to_string())],
        body: "\u{1}\u{2}control".to_string(),
        is_base64_encoded: false,
        query_string_parameters: vec![],
        timestamp: "".to_string(),
        source_ip: "".to_string(),
    };
    let text = encode_event(&e);
    let back = decode_event(&text).unwrap();
    assert_events_equal(&e, &back);
}

#[test]
fn decode_literal_body_with_all_fields() {
    let text = "{\"path\":\"/webhook/n8n/x\",\"method\":\"post\",\"headers\":{\"Host\":\"h\"},\"body\":\"b\",\"is_base64_encoded\":false,\"query_string_parameters\":{},\"timestamp\":\"t\",\"source_ip\":\"1.2.3.4\"}";
    let m = decode_event(text).unwrap();
    assert_eq!(m.path, "/webhook/n8n/x");
    assert_eq!(m.method, "post");
    assert_eq!(m.headers, vec![("Host".to_string(), "h".to_string())]);
    assert_eq!(m.body, "b");
    assert!(!m.is_base64_encoded);
    assert!(m.query_string_parameters.is_empty());
    assert_eq!(m.timestamp, "t");
    assert_eq!(m.source_ip, "1.2.3.4");
}

#[test]
fn decode_applies_defaults_for_absent_fields() {
    let m = decode_event("{\"path\":\"/p\",\"method\":\"GET\"}").unwrap();
    assert_eq!(m.path, "/p");
    assert_eq!(m.method, "GET");
    assert!(m.headers.is_empty());
    assert_eq!(m.body, "");
    assert!(!m.is_base64_encoded);
    assert!(m.query_string_parameters.is_empty());
    assert_eq!(m.timestamp, "");
    assert_eq!(m.source_ip, "");
}

#[test]
fn decode_accepts_any_field_order_and_whitespace() {
    let text = " { \"method\" : \"PUT\" ,\n   \"is_base64_encoded\" : true ,\n   \"path\" : \"/p\" } ";
    let m = decode_event(text).unwrap();
    assert_eq!(m.method, "PUT");
    assert_eq!(m.path, "/p");
    assert!(m.is_base64_encoded);
}

#[test]
fn decode_requires_path_and_method() {
    assert!(decode_event("{\"method\":\"GET\"}").is_none());
    assert!(decode_event("{\"path\":\"/p\"}").is_none());
    assert!(decode_event("{}").is_none());
}

#[test]
fn decode_refuses_malformed_text() {
    assert!(decode_event("").is_none());
    assert!(decode_event("not json").is_none());
    assert!(decode_event("{\"path\":\"/p\",\"method\":\"GET\"").is_none());
    assert!(decode_event("{\"path\":\"/p\",\"method\":\"GET\"} trailing").is_none());
    assert!(decode_event("{\"path\":12,\"method\":\"GET\"}").is_none());
}

#[test]
fn decode_refuses_unknown_and_repeated_keys() {
    assert!(decode_event("{\"path\":\"/p\",\"method\":\"GET\",\"extra\":\"x\"}").is_none());
    assert!(decode_event("{\"path\":\"/p\",\"path\":\"/q\",\"method\":\"GET\"}").is_none());
}

#[test]
fn decode_handles_unicode_escapes_below_0x100() {
    let m = decode_event("{\"path\":\"\\u0041\\u000a\",\"method\":\"GET\"}").unwrap();
    assert_eq!(m.path, "A\n");
}

#[test]
fn encode_produces_exact_canonical_text() {
    let e = WebhookMessage {
        path: "/p".to_string(),
        method: "GET".to_string(),
        headers: vec![("a".to_string(), "b".to_string())],
        body: "x\"y".to_string(),
        is_base64_encoded: false,
        query_string_parameters: vec![],
        timestamp: "t".to_string(),
        source_ip: "".to_string(),
    };
    let expected = "{\"path\":\"/p\",\"method\":\"GET\",\"headers\":{\"a\":\"b\"},\"body\":\"x\\\"y\",\"is_base64_encoded\":false,\"query_string_parameters\":{},\"timestamp\":\"t\",\"source_ip\":\"\"}";
    assert_eq!(encode_event(&e), expected);
}
