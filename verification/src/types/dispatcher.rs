use std::collections::BTreeMap;
use vstd::prelude::*;

use super::target_circuit_state::{circuit_view, TargetCircuitState, TargetCircuitStateView};
use super::webhook_attempt_log::WebhookAttemptErrorKind;
use super::webhook_event::{WebhookEvent, WebhookEventView};

verus! {

/// A worker asks for up to `limit` events, each for `lease_ms` milliseconds.
#[derive(Debug, Clone, PartialEq, Eq)]
pub struct LeaseRequest {
    pub limit: i64,
    pub lease_ms: i64,
    pub worker_id: String,
}

/// An event handed to a worker, with what it needs to deliver it.
#[derive(Debug, Clone, PartialEq, Eq)]
pub struct LeasedEvent {
    pub event: WebhookEvent,
    pub target_url: String,
    pub lease_expires_at: String,
    pub circuit: Option<TargetCircuitState>,
}

/// What a `LeasedEvent` holds.
pub struct LeasedEventView {
    pub event: WebhookEventView,
    pub target_url: Seq<char>,
    pub lease_expires_at: Seq<char>,
    pub circuit: Option<TargetCircuitStateView>,
}

impl View for LeasedEvent {
    type V = LeasedEventView;

    open spec fn view(&self) -> LeasedEventView {
        LeasedEventView {
            event: self.event@,
            target_url: self.target_url@,
            lease_expires_at: self.lease_expires_at@,
            circuit: circuit_view(self.circuit),
        }
    }
}

#[derive(Debug, Clone, PartialEq, Eq)]
pub struct LeaseResponse {
    pub events: Vec<LeasedEvent>,
}

/// A worker's verdict on one attempt.
#[derive(Debug, Clone, Copy, PartialEq, Eq, Structural)]
pub enum ReportOutcome {
    Delivered,
    Retry,
    Dead,
}

/// What was sent and what came back in one attempt.
#[derive(Debug, Clone, PartialEq, Eq)]
pub struct ReportAttempt {
    pub started_at: String,
    pub finished_at: String,
    pub request_headers: BTreeMap<String, String>,
    pub request_body: String,
    pub response_status: Option<i64>,
    pub response_headers: Option<BTreeMap<String, String>>,
    pub response_body: Option<String>,
    pub error_kind: Option<WebhookAttemptErrorKind>,
    pub error_message: Option<String>,
}

/// What a `ReportAttempt` holds.
pub struct ReportAttemptView {
    pub started_at: Seq<char>,
    pub finished_at: Seq<char>,
    pub request_headers: Map<Seq<char>, Seq<char>>,
    pub request_body: Seq<char>,
    pub response_status: Option<i64>,
    pub response_headers: Option<Map<Seq<char>, Seq<char>>>,
    pub response_body: Option<Seq<char>>,
    pub error_kind: Option<WebhookAttemptErrorKind>,
    pub error_message: Option<Seq<char>>,
}

impl View for ReportAttempt {
    type V = ReportAttemptView;

    open spec fn view(&self) -> ReportAttemptView {
        ReportAttemptView {
            started_at: self.started_at@,
            finished_at: self.finished_at@,
            request_headers: self.request_headers.deep_view(),
            request_body: self.request_body@,
            response_status: self.response_status,
            response_headers: self.response_headers.deep_view(),
            response_body: self.response_body.deep_view(),
            error_kind: self.error_kind,
            error_message: self.error_message.deep_view(),
        }
    }
}

/// A worker reports how its attempt on a leased event went.
#[derive(Debug, Clone, PartialEq, Eq)]
pub struct ReportRequest {
    pub worker_id: String,
    pub event_id: u128,
    pub outcome: ReportOutcome,
    /// Whether a failure counts against the endpoint's circuit.
    pub retryable: bool,
    pub next_attempt_at: Option<String>,
    pub attempt: ReportAttempt,
}

/// What a `ReportRequest` holds.
pub struct ReportRequestView {
    pub worker_id: Seq<char>,
    pub event_id: u128,
    pub outcome: ReportOutcome,
    pub retryable: bool,
    pub next_attempt_at: Option<Seq<char>>,
    pub attempt: ReportAttemptView,
}

impl View for ReportRequest {
    type V = ReportRequestView;

    open spec fn view(&self) -> ReportRequestView {
        ReportRequestView {
            worker_id: self.worker_id@,
            event_id: self.event_id,
            outcome: self.outcome,
            retryable: self.retryable,
            next_attempt_at: self.next_attempt_at.deep_view(),
            attempt: self.attempt@,
        }
    }
}

#[derive(Debug, Clone, PartialEq, Eq)]
pub struct ReportResponse {
    pub circuit: Option<TargetCircuitState>,
    pub final_outcome: ReportOutcome,
}

} // verus!
