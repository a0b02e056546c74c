//! Per-message decisions of the intake loop: decoding and routing one queue
//! message into an outbound request plan, classifying the outcome of a
//! forward attempt, and deciding whether the queue message may be deleted.
//! The queue receive, the network send and the sleeps stay with the caller;
//! every decision between them is made here.

use vstd::prelude::*;
use crate::forwarder::{build_request, request_spec, OutboundRequest, OutboundRequestV};
use crate::json::{decode_event, decode_event_spec};
use crate::router::{route_spec, RouteDecision, RouteError, WebhookRouter, WebhookRouterV};

verus! {

/// Why a message could not be turned into an outbound request.
#[derive(Debug, Clone, PartialEq, Eq, Structural)]
pub enum ProcessError {
    /// The message body is not a well-formed event object.
    Malformed,
    /// The event decoded but its path did not resolve to a target.
    Unroutable(RouteError),
}

/// The result of one forward attempt: a downstream status code of any
/// value, or a transport-level failure before any response arrived.
#[derive(Debug, Clone, PartialEq, Eq, Structural)]
pub enum DeliveryOutcome {
    Delivered(u16),
    TransportFailed,
}

/// What happened to one queue message, end to end.
#[derive(Debug, Clone, PartialEq, Eq, Structural)]
pub enum ProcessOutcome {
    /// The downstream answered with some status code; the event was
    /// delivered whatever the code was.
    Delivered(u16),
    /// The body did not decode.
    Malformed,
    /// The path did not resolve.
    Unroutable(RouteError),
    /// The send failed before any response arrived.
    TransportFailed,
}

/// What the loop does with the underlying queue message.
#[derive(Debug, Clone, Copy, PartialEq, Eq, Structural)]
pub enum MessageAction {
    /// Acknowledge: delete the message from the queue.
    Delete,
    /// Leave the message; the queue redelivers it after the visibility
    /// timeout.
    Leave,
}

/// The routing decision that a routing error stands for.
pub open spec fn error_decision(e: RouteError) -> RouteDecision {
    match e {
        RouteError::InvalidPath => RouteDecision::InvalidPath,
        RouteError::NoRoute => RouteDecision::NoRoute,
        RouteError::DefaultForwardUnsupported => RouteDecision::DefaultForwardUnsupported,
    }
}

/// A successful plan: the body decodes, the path resolves, and the request
/// is composed from the decoded event, its target and its remainder.
pub open spec fn plan_ok_spec(body: Seq<char>, rt: WebhookRouterV, req: OutboundRequestV) -> bool {
    match decode_event_spec(body) {
        Option::Some(e) => match route_spec(rt, e.path) {
            RouteDecision::Target(t, rest) => req == request_spec(e, t, rest),
            _ => false,
        },
        Option::None => false,
    }
}

/// A failed plan: malformed body, or a decoded event whose path fails to
/// resolve exactly as the routing decision says.
pub open spec fn plan_err_spec(body: Seq<char>, rt: WebhookRouterV, err: ProcessError) -> bool {
    match err {
        ProcessError::Malformed => decode_event_spec(body) is None,
        ProcessError::Unroutable(re) => match decode_event_spec(body) {
            Option::Some(e) => route_spec(rt, e.path) == error_decision(re),
            Option::None => false,
        },
    }
}

/// Decode one queue message body and plan its outbound request against the
/// route table. No network work happens here.
pub fn plan_message(body: &str, router: &WebhookRouter) -> (r: Result<OutboundRequest,
    ProcessError>)
    ensures
        match r {
            Ok(req) => plan_ok_spec(body@, router@, req@),
            Err(e) => plan_err_spec(body@, router@, e),
        },
{
    let event = match decode_event(body) {
        Some(e) => e,
        None => {
            return Err(ProcessError::Malformed);
        },
    };
    match router.route(event.path.as_str()) {
        Ok((target, rest)) => {
            let req = build_request(&event, target, rest.as_str());
            Ok(req)
        },
        Err(e) => Err(ProcessError::Unroutable(e)),
    }
}

/// The end-to-end outcome for a forward attempt's result.
pub open spec fn outcome_of_delivery_spec(d: DeliveryOutcome) -> ProcessOutcome {
    match d {
        DeliveryOutcome::Delivered(status) => ProcessOutcome::Delivered(status),
        DeliveryOutcome::TransportFailed => ProcessOutcome::TransportFailed,
    }
}

/// Classify the result of one forward attempt as the message's outcome.
pub fn outcome_of_delivery(d: &DeliveryOutcome) -> (o: ProcessOutcome)
    ensures
        o == outcome_of_delivery_spec(*d),
        (o matches ProcessOutcome::Delivered(_)) <==> (*d matches DeliveryOutcome::Delivered(_)),
{
    match d {
        DeliveryOutcome::Delivered(status) => ProcessOutcome::Delivered(*status),
        DeliveryOutcome::TransportFailed => ProcessOutcome::TransportFailed,
    }
}

/// Whether a finished message is acknowledged: exactly the delivered ones,
/// whatever their status code; every other outcome leaves the message for
/// the queue's own redelivery.
pub open spec fn action_spec(o: ProcessOutcome) -> MessageAction {
    match o {
        ProcessOutcome::Delivered(_) => MessageAction::Delete,
        _ => MessageAction::Leave,
    }
}

/// Decide what to do with the queue message after processing.
pub fn message_action(o: &ProcessOutcome) -> (a: MessageAction)
    ensures
        a == action_spec(*o),
        (a == MessageAction::Delete) <==> (*o matches ProcessOutcome::Delivered(_)),
{
    match o {
        ProcessOutcome::Delivered(_) => MessageAction::Delete,
        _ => MessageAction::Leave,
    }
}

/// A message is deleted exactly when processing reached a delivery outcome
/// with some downstream status; a transport failure, a malformed body or an
/// unroutable path never deletes it.
pub proof fn lemma_ack_iff_delivered(o: ProcessOutcome)
    ensures
        action_spec(o) == MessageAction::Delete <==> (o matches ProcessOutcome::Delivered(_)),
        action_spec(o) == MessageAction::Leave <==> !(o matches ProcessOutcome::Delivered(_)),
{
}

/// The readiness answer: 200 when the queue connectivity check passed,
/// 503 otherwise.
pub fn readiness_status(queue_ok: bool) -> (s: u16)
    ensures
        queue_ok ==> s == 200,
        !queue_ok ==> s == 503,
{
    if queue_ok {
        200
    } else {
        503
    }
}

} // verus!
