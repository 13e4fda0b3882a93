use vstd::prelude::*;

use super::target_circuit_state::{circuit_view, TargetCircuitState, TargetCircuitStateView};
use super::webhook_attempt_log::WebhookAttemptLog;
use super::webhook_event::{WebhookEvent, WebhookEventStatus, WebhookEventView};

verus! {

/// An event without its headers and payload.
#[derive(Debug, Clone, PartialEq, Eq)]
pub struct WebhookEventSummary {
    pub id: u128,
    pub endpoint_id: u128,
    pub replayed_from_event_id: Option<u128>,
    pub provider: String,
    pub status: WebhookEventStatus,
    pub attempts: i64,
    pub received_at: String,
    pub next_attempt_at: Option<String>,
    pub last_error: Option<String>,
}

/// What a `WebhookEventSummary` holds.
pub struct WebhookEventSummaryView {
    pub id: u128,
    pub endpoint_id: u128,
    pub replayed_from_event_id: Option<u128>,
    pub provider: Seq<char>,
    pub status: WebhookEventStatus,
    pub attempts: i64,
    pub received_at: Seq<char>,
    pub next_attempt_at: Option<Seq<char>>,
    pub last_error: Option<Seq<char>>,
}

impl View for WebhookEventSummary {
    type V = WebhookEventSummaryView;

    open spec fn view(&self) -> WebhookEventSummaryView {
        WebhookEventSummaryView {
            id: self.id,
            endpoint_id: self.endpoint_id,
            replayed_from_event_id: self.replayed_from_event_id,
            provider: self.provider@,
            status: self.status,
            attempts: self.attempts,
            received_at: self.received_at@,
            next_attempt_at: self.next_attempt_at.deep_view(),
            last_error: self.last_error.deep_view(),
        }
    }
}

/// One line of a listing.
#[derive(Debug, Clone, PartialEq, Eq)]
pub struct WebhookEventListItem {
    pub event: WebhookEventSummary,
    pub target_url: String,
    pub circuit: Option<TargetCircuitState>,
}

/// What a `WebhookEventListItem` holds.
pub struct WebhookEventListItemView {
    pub event: WebhookEventSummaryView,
    pub target_url: Seq<char>,
    pub circuit: Option<TargetCircuitStateView>,
}

impl View for WebhookEventListItem {
    type V = WebhookEventListItemView;

    open spec fn view(&self) -> WebhookEventListItemView {
        WebhookEventListItemView {
            event: self.event@,
            target_url: self.target_url@,
            circuit: circuit_view(self.circuit),
        }
    }
}

#[derive(Debug, Clone, PartialEq, Eq)]
pub struct ListEventsResponse {
    pub events: Vec<WebhookEventListItem>,
    pub next_before: Option<String>,
}

/// An event in full.
#[derive(Debug, Clone, PartialEq, Eq)]
pub struct GetEventResponse {
    pub event: WebhookEvent,
    pub target_url: String,
    pub circuit: Option<TargetCircuitState>,
}

/// What a `GetEventResponse` holds.
pub struct GetEventResponseView {
    pub event: WebhookEventView,
    pub target_url: Seq<char>,
    pub circuit: Option<TargetCircuitStateView>,
}

impl View for GetEventResponse {
    type V = GetEventResponseView;

    open spec fn view(&self) -> GetEventResponseView {
        GetEventResponseView {
            event: self.event@,
            target_url: self.target_url@,
            circuit: circuit_view(self.circuit),
        }
    }
}

#[derive(Debug, Clone, PartialEq, Eq)]
pub struct ListAttemptsResponse {
    pub attempts: Vec<WebhookAttemptLog>,
}

#[derive(Debug, Clone, PartialEq, Eq)]
pub struct ReplayEventRequest {
    pub reset_circuit: Option<bool>,
}

impl Default for ReplayEventRequest {
    fn default() -> (r: Self)
        ensures
            r.reset_circuit is None,
    {
        ReplayEventRequest { reset_circuit: None }
    }
}

/// The event a replay made, and the circuit of its endpoint.
#[derive(Debug, Clone, PartialEq, Eq)]
pub struct ReplayEventResponse {
    pub event: WebhookEventSummary,
    pub circuit: Option<TargetCircuitState>,
}

/// What a `ReplayEventResponse` holds.
pub struct ReplayEventResponseView {
    pub event: WebhookEventSummaryView,
    pub circuit: Option<TargetCircuitStateView>,
}

impl View for ReplayEventResponse {
    type V = ReplayEventResponseView;

    open spec fn view(&self) -> ReplayEventResponseView {
        ReplayEventResponseView { event: self.event@, circuit: circuit_view(self.circuit) }
    }
}

} // verus!
