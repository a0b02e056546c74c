use webhook_relay::config::{Config, ConfigError};
use webhook_relay::intake::{
    message_action, outcome_of_delivery, plan_message, readiness_status, DeliveryOutcome,
    MessageAction, ProcessError, ProcessOutcome,
};
use webhook_relay::router::{RouteError, WebhookRouter};

fn router() -> WebhookRouter {
    WebhookRouter::from_yaml("routes:\n  n8n:\n    url: \"https://n8n.example.com\"\n").unwrap()
}

#[test]
fn plan_builds_request_for_good_message() {
    let body = "{\"path\":\"/webhook/n8n/flow\",\"method\":\"POST\",\"body\":\"hi\"}";
    let req = plan_message(body, &router()).unwrap();
    assert_eq!(req.url, "https://n8n.example.com/flow");
    assert_eq!(req.method, "POST");
    assert_eq!(req.body, b"hi".to_vec());
}

#[test]
fn plan_rejects_malformed_body() {
    assert_eq!(
        plan_message("not json", &router()).unwrap_err(),
        ProcessError::Malformed
    );
}

#[test]
fn plan_rejects_unroutable_path() {
    let body = "{\"path\":\"/webhook/gitea/push\",\"method\":\"POST\"}";
    assert_eq!(
        plan_message(body, &router()).unwrap_err(),
        ProcessError::Unroutable(RouteError::NoRoute)
    );
    let body = "{\"path\":\"/other\",\"method\":\"POST\"}";
    assert_eq!(
        plan_message(body, &router()).unwrap_err(),
        ProcessError::Unroutable(RouteError::InvalidPath)
    );
}

#[test]
fn delivered_messages_are_deleted_whatever_the_status() {
    assert_eq!(message_action(&ProcessOutcome::Delivered(200)), MessageAction::Delete);
    assert_eq!(message_action(&ProcessOutcome::Delivered(404)), MessageAction::Delete);
    assert_eq!(message_action(&ProcessOutcome::Delivered(500)), MessageAction::Delete);
}

#[test]
fn failures_leave_the_message_for_redelivery() {
    assert_eq!(message_action(&ProcessOutcome::TransportFailed), MessageAction::Leave);
    assert_eq!(message_action(&ProcessOutcome::Malformed), MessageAction::Leave);
    assert_eq!(
        message_action(&ProcessOutcome::Unroutable(RouteError::NoRoute)),
        MessageAction::Leave
    );
}

#[test]
fn delivery_outcomes_classify_end_to_end() {
    assert_eq!(
        outcome_of_delivery(&DeliveryOutcome::Delivered(404)),
        ProcessOutcome::Delivered(404)
    );
    assert_eq!(
        outcome_of_delivery(&DeliveryOutcome::TransportFailed),
        ProcessOutcome::TransportFailed
    );
    assert_eq!(
        message_action(&outcome_of_delivery(&DeliveryOutcome::Delivered(404))),
        MessageAction::Delete
    );
    assert_eq!(
        message_action(&outcome_of_delivery(&DeliveryOutcome::TransportFailed)),
        MessageAction::Leave
    );
}

#[test]
fn readiness_reflects_queue_connectivity() {
    assert_eq!(readiness_status(true), 200);
    assert_eq!(readiness_status(false), 503);
}

#[test]
fn config_defaults_apply() {
    let c = Config::from_values(
        None,
        Some("https://sqs.example/queue".to_string()),
        None,
        None,
        None,
        None,
        None,
    )
    .unwrap();
    assert_eq!(c.aws_region, "us-east-1");
    assert_eq!(c.sqs_queue_url, "https://sqs.example/queue");
    assert_eq!(c.poll_interval_ms, 1000);
    assert_eq!(c.max_messages, 10);
    assert_eq!(c.route_config_path, "/config/routes.yaml");
    assert_eq!(c.http_port, 8080);
    assert_eq!(c.metrics_port, 9090);
}

#[test]
fn config_reads_supplied_values() {
    let c = Config::from_values(
        Some("eu-west-1".to_string()),
        Some("q".to_string()),
        Some("250".to_string()),
        Some("5".to_string()),
        Some("/etc/routes.yaml".to_string()),
        Some("8000".to_string()),
        Some("9000".to_string()),
    )
    .unwrap();
    assert_eq!(c.aws_region, "eu-west-1");
    assert_eq!(c.poll_interval_ms, 250);
    assert_eq!(c.max_messages, 5);
    assert_eq!(c.route_config_path, "/etc/routes.yaml");
    assert_eq!(c.http_port, 8000);
    assert_eq!(c.metrics_port, 9000);
}

#[test]
fn missing_queue_url_is_fatal() {
    let r = Config::from_values(None, None, None, None, None, None, None);
    assert_eq!(r.unwrap_err(), ConfigError::MissingQueueUrl);
}

#[test]
fn bad_numbers_are_fatal() {
    let q = Some("q".to_string());
    assert_eq!(
        Config::from_values(None, q.clone(), Some("soon".to_string()), None, None, None, None)
            .unwrap_err(),
        ConfigError::BadPollInterval
    );
    assert_eq!(
        Config::from_values(None, q.clone(), None, Some("-1".to_string()), None, None, None)
            .unwrap_err(),
        ConfigError::BadMaxMessages
    );
    assert_eq!(
        Config::from_values(None, q.clone(), None, None, None, Some("70000".to_string()), None)
            .unwrap_err(),
        ConfigError::BadHttpPort
    );
    assert_eq!(
        Config::from_values(None, q, None, None, None, None, Some("x".to_string()))
            .unwrap_err(),
        ConfigError::BadMetricsPort
    );
}
