use std::collections::BTreeMap;
use vstd::prelude::*;
use crate::text::str_eq;

verus! {

/// Why an attempt failed, where it did.
#[derive(Debug, Clone, Copy, PartialEq, Eq, Structural)]
pub enum WebhookAttemptErrorKind {
    Timeout,
    Network,
    InvalidResponse,
    Unexpected,
}

/// One delivery try, as it was logged.
#[derive(Debug, Clone, PartialEq, Eq)]
pub struct WebhookAttemptLog {
    pub id: u128,
    pub event_id: u128,
    pub attempt_no: i64,
    pub started_at: String,
    pub finished_at: String,
    pub request_headers: BTreeMap<String, String>,
    pub request_body: String,
    pub response_status: Option<i64>,
    pub response_headers: Option<BTreeMap<String, String>>,
    pub response_body: Option<String>,
    pub error_kind: Option<WebhookAttemptErrorKind>,
    pub error_message: Option<String>,
}

/// What a `WebhookAttemptLog` holds.
pub struct WebhookAttemptLogView {
    pub id: u128,
    pub event_id: u128,
    pub attempt_no: i64,
    pub started_at: Seq<char>,
    pub finished_at: Seq<char>,
    pub request_headers: Map<Seq<char>, Seq<char>>,
    pub request_body: Seq<char>,
    pub response_status: Option<i64>,
    pub response_headers: Option<Map<Seq<char>, Seq<char>>>,
    pub response_body: Option<Seq<char>>,
    pub error_kind: Option<WebhookAttemptErrorKind>,
    pub error_message: Option<Seq<char>>,
}

impl View for WebhookAttemptLog {
    type V = WebhookAttemptLogView;

    open spec fn view(&self) -> WebhookAttemptLogView {
        WebhookAttemptLogView {
            id: self.id,
            event_id: self.event_id,
            attempt_no: self.attempt_no,
            started_at: self.started_at@,
            finished_at: self.finished_at@,
            request_headers: self.request_headers.deep_view(),
            request_body: self.request_body@,
            response_status: self.response_status,
            response_headers: self.response_headers.deep_view(),
            response_body: self.response_body.deep_view(),
            error_kind: self.error_kind,
            error_message: self.error_message.deep_view(),
        }
    }
}


impl WebhookAttemptErrorKind {
    /// The kind as the store and the wire spell it.
    pub open spec fn text(self) -> Seq<char> {
        match self {
            WebhookAttemptErrorKind::Timeout => "timeout"@,
            WebhookAttemptErrorKind::Network => "network"@,
            WebhookAttemptErrorKind::InvalidResponse => "invalid_response"@,
            WebhookAttemptErrorKind::Unexpected => "unexpected"@,
        }
    }

    /// The kind that a text spells, if it spells one.
    pub open spec fn from_text(text: Seq<char>) -> Option<WebhookAttemptErrorKind> {
        if text == "timeout"@ {
            Some(WebhookAttemptErrorKind::Timeout)
        } else if text == "network"@ {
            Some(WebhookAttemptErrorKind::Network)
        } else if text == "invalid_response"@ {
            Some(WebhookAttemptErrorKind::InvalidResponse)
        } else if text == "unexpected"@ {
            Some(WebhookAttemptErrorKind::Unexpected)
        } else {
            None
        }
    }

    /// The kind as the store and the wire spell it.
    pub fn as_str(self) -> (r: &'static str)
        ensures
            r@ == self.text(),
    {
        match self {
            WebhookAttemptErrorKind::Timeout => "timeout",
            WebhookAttemptErrorKind::Network => "network",
            WebhookAttemptErrorKind::InvalidResponse => "invalid_response",
            WebhookAttemptErrorKind::Unexpected => "unexpected",
        }
    }

    /// Reads a kind; `None` for any text that spells none.
    pub fn parse(text: &str) -> (r: Option<WebhookAttemptErrorKind>)
        ensures
            r == WebhookAttemptErrorKind::from_text(text@),
    {
        if str_eq(text, "timeout") {
            Some(WebhookAttemptErrorKind::Timeout)
        } else if str_eq(text, "network") {
            Some(WebhookAttemptErrorKind::Network)
        } else if str_eq(text, "invalid_response") {
            Some(WebhookAttemptErrorKind::InvalidResponse)
        } else if str_eq(text, "unexpected") {
            Some(WebhookAttemptErrorKind::Unexpected)
        } else {
            None
        }
    }

    /// Every kind is read back from its own spelling, and no two share one.
    pub proof fn lemma_text_round_trip(self)
        ensures
            WebhookAttemptErrorKind::from_text(self.text()) == Some(self),
    {
        reveal_strlit("timeout");
        assert("timeout"@.len() == 7 && "timeout"@[0] == 't');
        reveal_strlit("network");
        assert("network"@.len() == 7 && "network"@[0] == 'n');
        reveal_strlit("invalid_response");
        assert("invalid_response"@.len() == 16 && "invalid_response"@[0] == 'i');
        reveal_strlit("unexpected");
        assert("unexpected"@.len() == 10 && "unexpected"@[0] == 'u');
    }
}

} // verus!
