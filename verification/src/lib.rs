//! Relays previously captured webhook events from a durable queue to named
//! downstream targets: decodes each queued event, routes it by its original
//! HTTP path, rebuilds the outbound request, and decides whether the queue
//! message may be acknowledged.

pub mod config;
pub mod event;
pub mod intake;
pub mod json;
pub mod forwarder;
pub mod router;
pub mod text;
