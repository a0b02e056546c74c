//! The decoded payload of one queue message: a previously captured inbound
//! webhook request. Path and method are always present; every other field
//! may be absent from the wire and then takes its default.

use vstd::prelude::*;

verus! {

/// One queued webhook event. Header and query mappings are kept in their
/// wire order; header-name matching is done case-insensitively by the
/// forwarder, so the order never matters for it.
#[derive(Debug)]
pub struct WebhookMessage {
    pub path: String,
    pub method: String,
    pub headers: Vec<(String, String)>,
    pub body: String,
    pub is_base64_encoded: bool,
    pub query_string_parameters: Vec<(String, String)>,
    pub timestamp: String,
    pub source_ip: String,
}

/// Mathematical model of a `WebhookMessage`.
pub ghost struct WebhookMessageV {
    pub path: Seq<char>,
    pub method: Seq<char>,
    pub headers: Seq<(Seq<char>, Seq<char>)>,
    pub body: Seq<char>,
    pub is_base64_encoded: bool,
    pub query_string_parameters: Seq<(Seq<char>, Seq<char>)>,
    pub timestamp: Seq<char>,
    pub source_ip: Seq<char>,
}

impl View for WebhookMessage {
    type V = WebhookMessageV;

    open spec fn view(&self) -> WebhookMessageV {
        WebhookMessageV {
            path: self.path@,
            method: self.method@,
            headers: self.headers.deep_view(),
            body: self.body@,
            is_base64_encoded: self.is_base64_encoded,
            query_string_parameters: self.query_string_parameters.deep_view(),
            timestamp: self.timestamp@,
            source_ip: self.source_ip@,
        }
    }
}

} // verus!
