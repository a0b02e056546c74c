[package]
name = "webhook_relay"
version = "0.1.0"
edition = "2021"
publish = false

[dependencies]
base64 = "*"
serde = { version = "*", features = ["derive"] }
serde_json = "*"
anyhow = "*"
tokio = { version = "*", features = ["macros", "rt-multi-thread", "net", "time"] }
axum = "*"
reqwest = { version = "*", default-features = false }
aws-config = "*"
aws-sdk-sqs = "*"
prometheus = "*"
lazy_static = "*"
tracing = "*"
tracing-subscriber = { version = "*", features = ["env-filter"] }
