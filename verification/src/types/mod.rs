//! The values that cross the library's boundary.

pub mod api_error;
pub mod dispatcher;
pub mod inspector;
pub mod target_circuit_state;
pub mod webhook_attempt_log;
pub mod webhook_event;

pub use api_error::{ApiErrorCode, ApiErrorResponse};
pub use dispatcher::{
    LeaseRequest, LeaseResponse, LeasedEvent, ReportAttempt, ReportOutcome, ReportRequest,
    ReportResponse,
};
pub use inspector::{
    GetEventResponse, ListAttemptsResponse, ListEventsResponse, ReplayEventRequest,
    ReplayEventResponse, WebhookEventListItem, WebhookEventSummary,
};
pub use target_circuit_state::{TargetCircuitState, TargetCircuitStatus};
pub use webhook_attempt_log::{WebhookAttemptErrorKind, WebhookAttemptLog};
pub use webhook_event::{WebhookEvent, WebhookEventStatus};
