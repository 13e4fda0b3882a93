use std::collections::BTreeMap;
use vstd::prelude::*;
use crate::text::str_eq;

verus! {

/// Where an event stands in its life.
#[derive(Debug, Clone, Copy, PartialEq, Eq, Structural)]
pub enum WebhookEventStatus {
    Pending,
    InFlight,
    Requeued,
    Delivered,
    Dead,
    Paused,
}

/// One received webhook, to be delivered to one endpoint.
#[derive(Debug, Clone, PartialEq, Eq)]
pub struct WebhookEvent {
    pub id: u128,
    pub endpoint_id: u128,
    pub replayed_from_event_id: Option<u128>,
    pub provider: String,
    pub headers: BTreeMap<String, String>,
    pub payload: String,
    pub status: WebhookEventStatus,
    pub attempts: i64,
    pub received_at: String,
    pub next_attempt_at: Option<String>,
    pub lease_expires_at: Option<String>,
    pub leased_by: Option<String>,
    pub last_error: Option<String>,
}

/// What a `WebhookEvent` holds.
pub struct WebhookEventView {
    pub id: u128,
    pub endpoint_id: u128,
    pub replayed_from_event_id: Option<u128>,
    pub provider: Seq<char>,
    pub headers: Map<Seq<char>, Seq<char>>,
    pub payload: Seq<char>,
    pub status: WebhookEventStatus,
    pub attempts: i64,
    pub received_at: Seq<char>,
    pub next_attempt_at: Option<Seq<char>>,
    pub lease_expires_at: Option<Seq<char>>,
    pub leased_by: Option<Seq<char>>,
    pub last_error: Option<Seq<char>>,
}

impl View for WebhookEvent {
    type V = WebhookEventView;

    open spec fn view(&self) -> WebhookEventView {
        WebhookEventView {
            id: self.id,
            endpoint_id: self.endpoint_id,
            replayed_from_event_id: self.replayed_from_event_id,
            provider: self.provider@,
            headers: self.headers.deep_view(),
            payload: self.payload@,
            status: self.status,
            attempts: self.attempts,
            received_at: self.received_at@,
            next_attempt_at: self.next_attempt_at.deep_view(),
            lease_expires_at: self.lease_expires_at.deep_view(),
            leased_by: self.leased_by.deep_view(),
            last_error: self.last_error.deep_view(),
        }
    }
}


impl WebhookEventStatus {
    /// The status as the store and the wire spell it.
    pub open spec fn text(self) -> Seq<char> {
        match self {
            WebhookEventStatus::Pending => "pending"@,
            WebhookEventStatus::InFlight => "in_flight"@,
            WebhookEventStatus::Requeued => "requeued"@,
            WebhookEventStatus::Delivered => "delivered"@,
            WebhookEventStatus::Dead => "dead"@,
            WebhookEventStatus::Paused => "paused"@,
        }
    }

    /// The status that a text spells, if it spells one.
    pub open spec fn from_text(text: Seq<char>) -> Option<WebhookEventStatus> {
        if text == "pending"@ {
            Some(WebhookEventStatus::Pending)
        } else if text == "in_flight"@ {
            Some(WebhookEventStatus::InFlight)
        } else if text == "requeued"@ {
            Some(WebhookEventStatus::Requeued)
        } else if text == "delivered"@ {
            Some(WebhookEventStatus::Delivered)
        } else if text == "dead"@ {
            Some(WebhookEventStatus::Dead)
        } else if text == "paused"@ {
            Some(WebhookEventStatus::Paused)
        } else {
            None
        }
    }

    /// The status as the store and the wire spell it.
    pub fn as_str(self) -> (r: &'static str)
        ensures
            r@ == self.text(),
    {
        match self {
            WebhookEventStatus::Pending => "pending",
            WebhookEventStatus::InFlight => "in_flight",
            WebhookEventStatus::Requeued => "requeued",
            WebhookEventStatus::Delivered => "delivered",
            WebhookEventStatus::Dead => "dead",
            WebhookEventStatus::Paused => "paused",
        }
    }

    /// Reads a status; `None` for any text that spells none.
    pub fn parse(text: &str) -> (r: Option<WebhookEventStatus>)
        ensures
            r == WebhookEventStatus::from_text(text@),
    {
        if str_eq(text, "pending") {
            Some(WebhookEventStatus::Pending)
        } else if str_eq(text, "in_flight") {
            Some(WebhookEventStatus::InFlight)
        } else if str_eq(text, "requeued") {
            Some(WebhookEventStatus::Requeued)
        } else if str_eq(text, "delivered") {
            Some(WebhookEventStatus::Delivered)
        } else if str_eq(text, "dead") {
            Some(WebhookEventStatus::Dead)
        } else if str_eq(text, "paused") {
            Some(WebhookEventStatus::Paused)
        } else {
            None
        }
    }

    /// Every status is read back from its own spelling, and no two share one.
    pub proof fn lemma_text_round_trip(self)
        ensures
            WebhookEventStatus::from_text(self.text()) == Some(self),
    {
        reveal_strlit("pending");
        assert("pending"@.len() == 7 && "pending"@[0] == 'p');
        reveal_strlit("in_flight");
        assert("in_flight"@.len() == 9 && "in_flight"@[0] == 'i');
        reveal_strlit("requeued");
        assert("requeued"@.len() == 8 && "requeued"@[0] == 'r');
        reveal_strlit("delivered");
        assert("delivered"@.len() == 9 && "delivered"@[0] == 'd');
        reveal_strlit("dead");
        assert("dead"@.len() == 4 && "dead"@[0] == 'd');
        reveal_strlit("paused");
        assert("paused"@.len() == 6 && "paused"@[0] == 'p');
    }
}

} // verus!
