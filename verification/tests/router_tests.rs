use webhook_relay::router::{RouteError, RoutesError, WebhookRouter};

#[test]
fn test_route_parsing() {
    let yaml = r#"
routes:
  n8n:
    url: "https://n8n.example.com"
    timeout_seconds: 30
  gitea:
    url: "https://gitea.example.com"

default:
  action: drop
"#;

    let router = WebhookRouter::from_yaml(yaml).unwrap();

    // Test n8n route
    let (target, rest) = router.route("/webhook/n8n/my-workflow").unwrap();
    assert_eq!(target.name, "n8n");
    assert_eq!(target.url, "https://n8n.example.com");
    assert_eq!(rest, "/my-workflow");

    // Test gitea route
    let (target, rest) = router.route("/webhook/gitea/push").unwrap();
    assert_eq!(target.name, "gitea");
    assert_eq!(rest, "/push");

    // Test unknown route
    assert!(router.route("/webhook/unknown/test").is_err());
}

fn sample_router() -> WebhookRouter {
    let yaml = "routes:\n  n8n:\n    url: \"https://n8n.example.com\"\n";
    WebhookRouter::from_yaml(yaml).unwrap()
}

#[test]
fn configured_service_resolves_with_remainder() {
    let router = sample_router();
    let (target, rest) = router.route("/webhook/n8n/my-workflow").unwrap();
    assert_eq!(target.name, "n8n");
    assert_eq!(target.url, "https://n8n.example.com");
    assert_eq!(rest, "/my-workflow");
}

#[test]
fn no_rest_segments_yield_root_remainder() {
    let router = sample_router();
    let (_, rest) = router.route("/webhook/n8n").unwrap();
    assert_eq!(rest, "/");
    let (_, rest) = router.route("/webhook/n8n/").unwrap();
    assert_eq!(rest, "/");
}

#[test]
fn deep_rest_segments_are_rejoined() {
    let router = sample_router();
    let (_, rest) = router.route("/webhook/n8n/a/b/c").unwrap();
    assert_eq!(rest, "/a/b/c");
}

#[test]
fn invalid_paths_are_refused() {
    let router = sample_router();
    assert_eq!(router.route("/nope/n8n").unwrap_err(), RouteError::InvalidPath);
    assert_eq!(router.route("/webhook").unwrap_err(), RouteError::InvalidPath);
    assert_eq!(router.route("").unwrap_err(), RouteError::InvalidPath);
    assert_eq!(router.route("/").unwrap_err(), RouteError::InvalidPath);
    assert_eq!(router.route("webhook").unwrap_err(), RouteError::InvalidPath);
}

#[test]
fn unconfigured_service_drops_with_no_route() {
    let router = sample_router();
    assert_eq!(router.route("/webhook/gitea/push").unwrap_err(), RouteError::NoRoute);
}

#[test]
fn default_forward_with_url_is_unsupported() {
    let yaml = "routes:\n  a:\n    url: x\ndefault:\n  action: forward\n  url: \"https://fallback.example.com\"\n";
    let router = WebhookRouter::from_yaml(yaml).unwrap();
    assert_eq!(
        router.route("/webhook/other/x").unwrap_err(),
        RouteError::DefaultForwardUnsupported
    );
}

#[test]
fn default_forward_without_url_is_no_route() {
    let yaml = "routes:\n  a:\n    url: x\ndefault:\n  action: forward\n";
    let router = WebhookRouter::from_yaml(yaml).unwrap();
    assert_eq!(router.route("/webhook/other/x").unwrap_err(), RouteError::NoRoute);
}

#[test]
fn route_count_counts_routes() {
    let yaml = "routes:\n  a:\n    url: x\n  b:\n    url: y\n";
    let router = WebhookRouter::from_yaml(yaml).unwrap();
    assert_eq!(router.route_count(), 2);
}

#[test]
fn missing_url_is_fatal() {
    let yaml = "routes:\n  a:\n    timeout_seconds: 5\n";
    assert_eq!(WebhookRouter::from_yaml(yaml).unwrap_err(), RoutesError::Malformed);
}

#[test]
fn missing_routes_section_is_fatal() {
    let yaml = "default:\n  action: drop\n";
    assert!(WebhookRouter::from_yaml(yaml).is_err());
}

#[test]
fn timeout_defaults_to_thirty() {
    let router = sample_router();
    let (target, _) = router.route("/webhook/n8n/x").unwrap();
    assert_eq!(target.timeout_seconds, 30);
}

#[test]
fn timeout_is_read_per_route() {
    let yaml = "routes:\n  a:\n    url: x\n    timeout_seconds: 7\n";
    let router = WebhookRouter::from_yaml(yaml).unwrap();
    let (target, _) = router.route("/webhook/a/x").unwrap();
    assert_eq!(target.timeout_seconds, 7);
}

#[test]
fn bad_timeout_is_fatal() {
    let yaml = "routes:\n  a:\n    url: x\n    timeout_seconds: soon\n";
    assert!(WebhookRouter::from_yaml(yaml).is_err());
}

#[test]
fn duplicate_route_names_are_fatal() {
    let yaml = "routes:\n  a:\n    url: x\n  a:\n    url: y\n";
    assert!(WebhookRouter::from_yaml(yaml).is_err());
}

#[test]
fn comments_and_blank_lines_are_ignored() {
    let yaml = "# routes file\nroutes:\n\n  a:\n    # the target\n    url: x\n";
    let router = WebhookRouter::from_yaml(yaml).unwrap();
    assert_eq!(router.route_count(), 1);
}

#[test]
fn default_timeout_is_thirty() {
    assert_eq!(webhook_relay::router::default_timeout(), 30);
}
