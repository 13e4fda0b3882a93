use vstd::prelude::*;

use crate::ids::{uuid_text, write_uuid};
use crate::json::{json_to_text_map, read_text_map};
use crate::rows::{id_of_text, read_id, read_replayed_from, replayed_from};
use crate::order::{key_lt, keys_view, member, positions, sort_keys, SortKey, SortKeyView};
use crate::tables::{
    lemma_position, position, EventRowView, JoinedEvent, JoinedEventView, ListAttemptsRow,
    ListAttemptsRowView, Store, StoreError, StoreErrorView, StoreView,
};
use crate::text::{copy_opt_text, copy_text, join_text, str_eq, str_lt, text_lt};
use crate::time::{instant_le, parse_instant, rfc3339_instant, Timestamp};
use crate::types::inspector::{
    GetEventResponseView, ReplayEventResponseView, WebhookEventListItemView,
    WebhookEventSummaryView,
};
use crate::types::target_circuit_state::{circuit_view, TargetCircuitStateView};
use crate::types::webhook_attempt_log::WebhookAttemptLogView;
use crate::types::webhook_event::WebhookEventView;
use crate::types::{
    GetEventResponse, ListAttemptsResponse, ReplayEventResponse, TargetCircuitState,
    TargetCircuitStatus, WebhookAttemptErrorKind, WebhookAttemptLog, WebhookEvent,
    WebhookEventListItem, WebhookEventStatus, WebhookEventSummary,
};

verus! {

/// A place in a listing: the event that the next page comes after.
#[derive(Debug, Clone, PartialEq, Eq)]
pub struct InspectorCursor {
    pub received_at: String,
    pub id: u128,
}

/// What an `InspectorCursor` holds.
pub struct InspectorCursorView {
    pub received_at: Seq<char>,
    pub id: u128,
}

impl View for InspectorCursor {
    type V = InspectorCursorView;

    open spec fn view(&self) -> InspectorCursorView {
        InspectorCursorView { received_at: self.received_at@, id: self.id }
    }
}

/// Reads a status as the store spells it.
pub fn parse_status(status: &str) -> (r: Result<WebhookEventStatus, StoreError>)
    ensures
        match WebhookEventStatus::from_text(status@) {
            Some(s) => r == Ok::<WebhookEventStatus, StoreError>(s),
            None => r matches Err(e) && e@ == StoreErrorView::Parse("unknown status: "@ + status@),
        },
{
    match WebhookEventStatus::parse(status) {
        Some(s) => Ok(s),
        None => Err(StoreError::Parse(join_text("unknown status: ", status))),
    }
}

/// A status as the store spells it.
pub fn status_to_str(status: WebhookEventStatus) -> (r: &'static str)
    ensures
        r@ == status.text(),
{
    status.as_str()
}

/// Reads a circuit state as the store spells it.
pub fn parse_circuit_status(status: &str) -> (r: Result<TargetCircuitStatus, StoreError>)
    ensures
        match TargetCircuitStatus::from_text(status@) {
            Some(s) => r == Ok::<TargetCircuitStatus, StoreError>(s),
            None => r matches Err(e) && e@ == StoreErrorView::Parse(
                "unknown circuit status: "@ + status@,
            ),
        },
{
    match TargetCircuitStatus::parse(status) {
        Some(s) => Ok(s),
        None => Err(StoreError::Parse(join_text("unknown circuit status: ", status))),
    }
}

/// Reads a kind of error as the store spells it.
pub fn parse_error_kind(kind: &str) -> (r: Result<WebhookAttemptErrorKind, StoreError>)
    ensures
        match WebhookAttemptErrorKind::from_text(kind@) {
            Some(k) => r == Ok::<WebhookAttemptErrorKind, StoreError>(k),
            None => r matches Err(e) && e@ == StoreErrorView::Parse(
                "unknown error kind: "@ + kind@,
            ),
        },
{
    match WebhookAttemptErrorKind::parse(kind) {
        Some(k) => Ok(k),
        None => Err(StoreError::Parse(join_text("unknown error kind: ", kind))),
    }
}

/// The circuit that the joined circuit columns of a row describe: none where
/// the state is null, which is where the endpoint has no circuit row.
pub open spec fn circuit_of_columns(
    endpoint_id: Seq<char>,
    state: Option<Seq<char>>,
    open_until: Option<Seq<char>>,
    consecutive_failures: Option<i64>,
    last_failure_at: Option<Seq<char>>,
) -> Result<Option<TargetCircuitStateView>, StoreErrorView> {
    match state {
        None => Ok(None),
        Some(state) => match id_of_text(endpoint_id, "invalid endpoint id: "@) {
            Err(e) => Err(e),
            Ok(id) => match TargetCircuitStatus::from_text(state) {
                None => Err(StoreErrorView::Parse("unknown circuit status: "@ + state)),
                Some(status) => Ok(
                    Some(
                        TargetCircuitStateView {
                            endpoint_id: id,
                            state: status,
                            open_until,
                            consecutive_failures: match consecutive_failures {
                                Some(n) => n,
                                None => 0,
                            },
                            last_failure_at,
                        },
                    ),
                ),
            },
        },
    }
}

/// Reads the joined circuit columns of a row.
pub fn map_circuit(
    endpoint_id: &str,
    state: Option<&str>,
    open_until: Option<&str>,
    consecutive_failures: Option<i64>,
    last_failure_at: Option<&str>,
) -> (r: Result<Option<TargetCircuitState>, StoreError>)
    ensures
        match r {
            Ok(c) => circuit_of_columns(
                endpoint_id@,
                state.deep_view(),
                open_until.deep_view(),
                consecutive_failures,
                last_failure_at.deep_view(),
            ) == Ok::<Option<TargetCircuitStateView>, StoreErrorView>(circuit_view(c)),
            Err(e) => circuit_of_columns(
                endpoint_id@,
                state.deep_view(),
                open_until.deep_view(),
                consecutive_failures,
                last_failure_at.deep_view(),
            ) == Err::<Option<TargetCircuitStateView>, StoreErrorView>(e@),
        },
{
    let state = match state {
        Some(state) => state,
        None => {
            return Ok(None);
        },
    };
    let endpoint_id = match read_id(endpoint_id, "invalid endpoint id: ") {
        Ok(id) => id,
        Err(e) => {
            return Err(e);
        },
    };
    let circuit_status = match parse_circuit_status(state) {
        Ok(s) => s,
        Err(e) => {
            return Err(e);
        },
    };
    Ok(
        Some(
            TargetCircuitState {
                endpoint_id,
                state: circuit_status,
                open_until: match open_until {
                    Some(t) => Some(copy_text(t)),
                    None => None,
                },
                consecutive_failures: match consecutive_failures {
                    Some(n) => n,
                    None => 0,
                },
                last_failure_at: match last_failure_at {
                    Some(t) => Some(copy_text(t)),
                    None => None,
                },
            },
        ),
    )
}

/// The circuit that a joined row describes.
pub open spec fn circuit_of_row(row: JoinedEventView) -> Result<
    Option<TargetCircuitStateView>,
    StoreErrorView,
> {
    circuit_of_columns(
        row.event.endpoint_id,
        row.circuit_state,
        row.circuit_open_until,
        row.circuit_consecutive_failures,
        row.circuit_last_failure_at,
    )
}

pub(crate) fn opt_str(text: &Option<String>) -> (r: Option<&str>)
    ensures
        r.deep_view() == text.deep_view(),
{
    match text {
        Some(t) => Some(t.as_str()),
        None => None,
    }
}

/// The line of a listing that a joined row makes, and the cursor that points
/// at it. The checks are made in this order: status, event id, endpoint id,
/// replayed-from id, circuit.
pub open spec fn list_item_of_row(row: JoinedEventView) -> Result<
    (WebhookEventListItemView, InspectorCursorView),
    StoreErrorView,
> {
    let e = row.event;
    match WebhookEventStatus::from_text(e.status) {
        None => Err(StoreErrorView::Parse("unknown status: "@ + e.status)),
        Some(status) => match id_of_text(e.id, "invalid event id: "@) {
            Err(err) => Err(err),
            Ok(id) => match id_of_text(e.endpoint_id, "invalid endpoint id: "@) {
                Err(err) => Err(err),
                Ok(endpoint_id) => match replayed_from(e.replayed_from_event_id) {
                    Err(err) => Err(err),
                    Ok(replayed_from_event_id) => match circuit_of_row(row) {
                        Err(err) => Err(err),
                        Ok(circuit) => Ok(
                            (
                                WebhookEventListItemView {
                                    event: WebhookEventSummaryView {
                                        id,
                                        endpoint_id,
                                        replayed_from_event_id,
                                        provider: e.provider,
                                        status,
                                        attempts: e.attempts,
                                        received_at: e.received_at,
                                        next_attempt_at: e.next_attempt_at,
                                        last_error: e.last_error,
                                    },
                                    target_url: row.target_url,
                                    circuit,
                                },
                                InspectorCursorView { received_at: e.received_at, id },
                            ),
                        ),
                    },
                },
            },
        },
    }
}

/// Reads a joined row as a line of a listing.
pub fn list_item_from_row(row: JoinedEvent) -> (r: Result<
    (WebhookEventListItem, InspectorCursor),
    StoreError,
>)
    ensures
        match r {
            Ok(pair) => list_item_of_row(row@) == Ok::<
                (WebhookEventListItemView, InspectorCursorView),
                StoreErrorView,
            >((pair.0@, pair.1@)),
            Err(e) => list_item_of_row(row@) == Err::<
                (WebhookEventListItemView, InspectorCursorView),
                StoreErrorView,
            >(e@),
        },
{
    let status = match parse_status(row.event.status.as_str()) {
        Ok(s) => s,
        Err(e) => {
            return Err(e);
        },
    };
    let event_id = match read_id(row.event.id.as_str(), "invalid event id: ") {
        Ok(id) => id,
        Err(e) => {
            return Err(e);
        },
    };
    let endpoint_id = match read_id(row.event.endpoint_id.as_str(), "invalid endpoint id: ") {
        Ok(id) => id,
        Err(e) => {
            return Err(e);
        },
    };
    let replayed_from_event_id = match read_replayed_from(&row.event.replayed_from_event_id) {
        Ok(id) => id,
        Err(e) => {
            return Err(e);
        },
    };
    let circuit = match map_circuit(
        row.event.endpoint_id.as_str(),
        opt_str(&row.circuit_state),
        opt_str(&row.circuit_open_until),
        row.circuit_consecutive_failures,
        opt_str(&row.circuit_last_failure_at),
    ) {
        Ok(c) => c,
        Err(e) => {
            return Err(e);
        },
    };
    let cursor = InspectorCursor {
        received_at: copy_text(row.event.received_at.as_str()),
        id: event_id,
    };
    let event = WebhookEventSummary {
        id: event_id,
        endpoint_id,
        replayed_from_event_id,
        provider: row.event.provider,
        status,
        attempts: row.event.attempts,
        received_at: row.event.received_at,
        next_attempt_at: row.event.next_attempt_at,
        last_error: row.event.last_error,
    };
    Ok((WebhookEventListItem { event, target_url: row.target_url, circuit }, cursor))
}

/// The event in full that a joined row makes. The checks are made in this
/// order: status, headers, event id, endpoint id, replayed-from id, circuit.
pub open spec fn event_of_row(row: JoinedEventView) -> Result<
    GetEventResponseView,
    StoreErrorView,
> {
    let e = row.event;
    match WebhookEventStatus::from_text(e.status) {
        None => Err(StoreErrorView::Parse("unknown status: "@ + e.status)),
        Some(status) => match json_to_text_map(e.headers) {
            Err(err) => Err(StoreErrorView::Parse("invalid headers JSON: "@ + err)),
            Ok(headers) => match id_of_text(e.id, "invalid event id: "@) {
                Err(err) => Err(err),
                Ok(id) => match id_of_text(e.endpoint_id, "invalid endpoint id: "@) {
                    Err(err) => Err(err),
                    Ok(endpoint_id) => match replayed_from(e.replayed_from_event_id) {
                        Err(err) => Err(err),
                        Ok(replayed_from_event_id) => match circuit_of_row(row) {
                            Err(err) => Err(err),
                            Ok(circuit) => Ok(
                                GetEventResponseView {
                                    event: WebhookEventView {
                                        id,
                                        endpoint_id,
                                        replayed_from_event_id,
                                        provider: e.provider,
                                        headers,
                                        payload: e.payload,
                                        status,
                                        attempts: e.attempts,
                                        received_at: e.received_at,
                                        next_attempt_at: e.next_attempt_at,
                                        lease_expires_at: e.lease_expires_at,
                                        leased_by: e.leased_by,
                                        last_error: e.last_error,
                                    },
                                    target_url: row.target_url,
                                    circuit,
                                },
                            ),
                        },
                    },
                },
            },
        },
    }
}

/// Reads a joined row as an event in full.
pub fn get_event_from_row(row: JoinedEvent) -> (r: Result<GetEventResponse, StoreError>)
    ensures
        match r {
            Ok(res) => event_of_row(row@) == Ok::<GetEventResponseView, StoreErrorView>(res@),
            Err(e) => event_of_row(row@) == Err::<GetEventResponseView, StoreErrorView>(e@),
        },
{
    let status = match parse_status(row.event.status.as_str()) {
        Ok(s) => s,
        Err(e) => {
            return Err(e);
        },
    };
    let headers = match read_text_map(row.event.headers.as_str()) {
        Ok(h) => h,
        Err(err) => {
            return Err(StoreError::Parse(join_text("invalid headers JSON: ", err.as_str())));
        },
    };
    let id = match read_id(row.event.id.as_str(), "invalid event id: ") {
        Ok(id) => id,
        Err(e) => {
            return Err(e);
        },
    };
    let endpoint_id = match read_id(row.event.endpoint_id.as_str(), "invalid endpoint id: ") {
        Ok(id) => id,
        Err(e) => {
            return Err(e);
        },
    };
    let replayed_from_event_id = match read_replayed_from(&row.event.replayed_from_event_id) {
        Ok(id) => id,
        Err(e) => {
            return Err(e);
        },
    };
    let circuit = match map_circuit(
        row.event.endpoint_id.as_str(),
        opt_str(&row.circuit_state),
        opt_str(&row.circuit_open_until),
        row.circuit_consecutive_failures,
        opt_str(&row.circuit_last_failure_at),
    ) {
        Ok(c) => c,
        Err(e) => {
            return Err(e);
        },
    };
    let event = WebhookEvent {
        id,
        endpoint_id,
        replayed_from_event_id,
        provider: row.event.provider,
        headers,
        payload: row.event.payload,
        status,
        attempts: row.event.attempts,
        received_at: row.event.received_at,
        next_attempt_at: row.event.next_attempt_at,
        lease_expires_at: row.event.lease_expires_at,
        leased_by: row.event.leased_by,
        last_error: row.event.last_error,
    };
    Ok(GetEventResponse { event, target_url: row.target_url, circuit })
}

/// The attempt that a row of an attempts listing makes: none for the row
/// that stands for an event without attempts. The checks are made in this
/// order: the columns that must be there, request headers, response headers,
/// kind of error, attempt id, event id.
pub open spec fn attempt_of_row(row: ListAttemptsRowView) -> Result<
    Option<WebhookAttemptLogView>,
    StoreErrorView,
> {
    if row.attempt_id is None {
        Ok(None)
    } else if row.attempt_no is None {
        Err(StoreErrorView::Parse("attempt row missing attempt_no"@))
    } else if row.started_at is None {
        Err(StoreErrorView::Parse("attempt row missing started_at"@))
    } else if row.finished_at is None {
        Err(StoreErrorView::Parse("attempt row missing finished_at"@))
    } else if row.request_headers is None {
        Err(StoreErrorView::Parse("attempt row missing request_headers"@))
    } else if row.request_body is None {
        Err(StoreErrorView::Parse("attempt row missing request_body"@))
    } else {
        match json_to_text_map(row.request_headers->0) {
            Err(err) => Err(StoreErrorView::Parse("invalid request headers JSON: "@ + err)),
            Ok(request_headers) => match response_headers_of(row.response_headers) {
                Err(err) => Err(err),
                Ok(response_headers) => match error_kind_of(row.error_kind) {
                    Err(err) => Err(err),
                    Ok(error_kind) => match id_of_text(row.attempt_id->0, "invalid attempt id: "@) {
                        Err(err) => Err(err),
                        Ok(id) => match id_of_text(row.event_id, "invalid event id: "@) {
                            Err(err) => Err(err),
                            Ok(event_id) => Ok(
                                Some(
                                    WebhookAttemptLogView {
                                        id,
                                        event_id,
                                        attempt_no: row.attempt_no->0,
                                        started_at: row.started_at->0,
                                        finished_at: row.finished_at->0,
                                        request_headers,
                                        request_body: row.request_body->0,
                                        response_status: row.response_status,
                                        response_headers,
                                        response_body: row.response_body,
                                        error_kind,
                                        error_message: row.error_message,
                                    },
                                ),
                            ),
                        },
                    },
                },
            },
        }
    }
}

/// The response headers that a column holds, if it holds any.
pub open spec fn response_headers_of(text: Option<Seq<char>>) -> Result<
    Option<Map<Seq<char>, Seq<char>>>,
    StoreErrorView,
> {
    match text {
        None => Ok(None),
        Some(t) => match json_to_text_map(t) {
            Ok(h) => Ok(Some(h)),
            Err(err) => Err(StoreErrorView::Parse("invalid response headers JSON: "@ + err)),
        },
    }
}

/// The kind of error that a column holds, if it holds any.
pub open spec fn error_kind_of(text: Option<Seq<char>>) -> Result<
    Option<WebhookAttemptErrorKind>,
    StoreErrorView,
> {
    match text {
        None => Ok(None),
        Some(t) => match WebhookAttemptErrorKind::from_text(t) {
            Some(k) => Ok(Some(k)),
            None => Err(StoreErrorView::Parse("unknown error kind: "@ + t)),
        },
    }
}

/// The view of an attempt that may be absent.
pub open spec fn attempt_view(attempt: Option<WebhookAttemptLog>) -> Option<WebhookAttemptLogView> {
    match attempt {
        Some(a) => Some(a@),
        None => None,
    }
}

fn missing(what: &str) -> (r: StoreError)
    ensures
        r@ == StoreErrorView::Parse(what@),
{
    StoreError::Parse(copy_text(what))
}

/// Reads a row of an attempts listing.
pub fn attempt_from_optional_row(row: ListAttemptsRow) -> (r: Result<
    Option<WebhookAttemptLog>,
    StoreError,
>)
    ensures
        match r {
            Ok(a) => attempt_of_row(row@) == Ok::<Option<WebhookAttemptLogView>, StoreErrorView>(
                attempt_view(a),
            ),
            Err(e) => attempt_of_row(row@) == Err::<Option<WebhookAttemptLogView>, StoreErrorView>(
                e@,
            ),
        },
{
    let attempt_id = match row.attempt_id {
        Some(id) => id,
        None => {
            return Ok(None);
        },
    };
    let attempt_no = match row.attempt_no {
        Some(n) => n,
        None => {
            return Err(missing("attempt row missing attempt_no"));
        },
    };
    let started_at = match row.started_at {
        Some(t) => t,
        None => {
            return Err(missing("attempt row missing started_at"));
        },
    };
    let finished_at = match row.finished_at {
        Some(t) => t,
        None => {
            return Err(missing("attempt row missing finished_at"));
        },
    };
    let request_headers = match row.request_headers {
        Some(t) => t,
        None => {
            return Err(missing("attempt row missing request_headers"));
        },
    };
    let request_body = match row.request_body {
        Some(t) => t,
        None => {
            return Err(missing("attempt row missing request_body"));
        },
    };
    let request_headers = match read_text_map(request_headers.as_str()) {
        Ok(h) => h,
        Err(err) => {
            return Err(
                StoreError::Parse(join_text("invalid request headers JSON: ", err.as_str())),
            );
        },
    };
    let response_headers = match row.response_headers {
        Some(headers) => match read_text_map(headers.as_str()) {
            Ok(h) => Some(h),
            Err(err) => {
                return Err(
                    StoreError::Parse(join_text("invalid response headers JSON: ", err.as_str())),
                );
            },
        },
        None => None,
    };
    let error_kind = match &row.error_kind {
        Some(kind) => match parse_error_kind(kind.as_str()) {
            Ok(k) => Some(k),
            Err(e) => {
                return Err(e);
            },
        },
        None => None,
    };
    let id = match read_id(attempt_id.as_str(), "invalid attempt id: ") {
        Ok(id) => id,
        Err(e) => {
            return Err(e);
        },
    };
    let event_id = match read_id(row.event_id.as_str(), "invalid event id: ") {
        Ok(id) => id,
        Err(e) => {
            return Err(e);
        },
    };
    Ok(
        Some(
            WebhookAttemptLog {
                id,
                event_id,
                attempt_no,
                started_at,
                finished_at,
                request_headers,
                request_body,
                response_status: row.response_status,
                response_headers,
                response_body: row.response_body,
                error_kind,
                error_message: row.error_message,
            },
        ),
    )
}

/// What asking for one event comes to: the event in full, or that there is
/// none, or that its row cannot be read.
pub open spec fn get_event_outcome(store: StoreView, event_id: u128) -> Result<
    GetEventResponseView,
    StoreErrorView,
> {
    match position(store.event_ids(), uuid_text(event_id)) {
        None => Err(StoreErrorView::NotFound("event not found"@)),
        Some(i) => event_of_row(store.joined_event(i)),
    }
}

/// One event in full, with the target of its endpoint and the state of its
/// circuit.
pub fn get_event(store: &Store, event_id: u128) -> (r: Result<GetEventResponse, StoreError>)
    requires
        store.wf(),
    ensures
        match r {
            Ok(res) => get_event_outcome(store@, event_id) == Ok::<
                GetEventResponseView,
                StoreErrorView,
            >(res@),
            Err(e) => get_event_outcome(store@, event_id) == Err::<
                GetEventResponseView,
                StoreErrorView,
            >(e@),
        },
{
    let id = write_uuid(event_id);
    match store.find_event(id.as_str()) {
        None => Err(StoreError::NotFound(copy_text("event not found"))),
        Some(i) => get_event_from_row(store.joined_event(i)),
    }
}

/// What an attempt is ordered by in a listing: when it started, then its
/// number, then its place in the table.
pub open spec fn attempt_key(store: StoreView, i: int) -> SortKeyView {
    SortKeyView {
        major: store.attempts[i].started_at,
        minor: Seq::empty(),
        number: store.attempts[i].attempt_no,
        position: i as usize,
    }
}

/// `order` lists the positions of the attempts of the event `id`, each once,
/// in the order of `attempt_key`.
pub open spec fn is_attempt_listing(store: StoreView, id: Seq<char>, order: Seq<int>) -> bool {
    &&& forall|k: int|
        0 <= k < order.len() ==> 0 <= #[trigger] order[k] < store.attempts.len()
            && store.attempts[order[k]].event_id == id
    &&& forall|j: int, k: int|
        0 <= j < k < order.len() ==> key_lt(
            attempt_key(store, #[trigger] order[j]),
            attempt_key(store, #[trigger] order[k]),
        )
    &&& forall|i: int|
        0 <= i < store.attempts.len() && (#[trigger] store.attempts[i]).event_id == id
            ==> order.contains(i)
}

/// An attempt as the listing joins it to its event.
pub open spec fn joined_attempt(store: StoreView, i: int) -> ListAttemptsRowView {
    let a = store.attempts[i];
    ListAttemptsRowView {
        event_id: a.event_id,
        attempt_id: Some(a.id),
        attempt_no: Some(a.attempt_no),
        started_at: Some(a.started_at),
        finished_at: Some(a.finished_at),
        request_headers: Some(a.request_headers),
        request_body: Some(a.request_body),
        response_status: a.response_status,
        response_headers: a.response_headers,
        response_body: a.response_body,
        error_kind: a.error_kind,
        error_message: a.error_message,
    }
}

/// `r` is what reading the attempts at `order` comes to: the attempts, one
/// for one, or the error of the first row that cannot be read.
pub open spec fn attempts_read(
    store: StoreView,
    order: Seq<int>,
    r: Result<ListAttemptsResponse, StoreError>,
) -> bool {
    match r {
        Ok(res) => res.attempts.len() == order.len() && forall|k: int|
            0 <= k < order.len() ==> attempt_of_row(joined_attempt(store, #[trigger] order[k]))
                == Ok::<Option<WebhookAttemptLogView>, StoreErrorView>(Some(res.attempts[k]@)),
        Err(e) => exists|k: int|
            0 <= k < order.len() && attempt_of_row(joined_attempt(store, #[trigger] order[k]))
                == Err::<Option<WebhookAttemptLogView>, StoreErrorView>(e@) && forall|j: int|
                0 <= j < k ==> attempt_of_row(joined_attempt(store, #[trigger] order[j])) is Ok,
    }
}

/// Asking for the attempts of an event, which stand at `order`, came to `r`.
pub open spec fn list_attempts_outcome(
    store: StoreView,
    event_id: u128,
    order: Seq<int>,
    r: Result<ListAttemptsResponse, StoreError>,
) -> bool {
    match position(store.event_ids(), uuid_text(event_id)) {
        None => r matches Err(e) && e@ == StoreErrorView::NotFound("event not found"@),
        Some(_) => is_attempt_listing(store, uuid_text(event_id), order) && attempts_read(
            store,
            order,
            r,
        ),
    }
}

impl Store {
    /// The attempt at position `i` as the listing joins it to its event.
    fn joined_attempt(&self, i: usize) -> (r: ListAttemptsRow)
        requires
            i < self@.attempts.len(),
        ensures
            r@ == joined_attempt(self@, i as int),
    {
        let a = &self.attempts[i];
        assert(self@.attempts[i as int] == a@);
        ListAttemptsRow {
            event_id: copy_text(a.event_id.as_str()),
            attempt_id: Some(copy_text(a.id.as_str())),
            attempt_no: Some(a.attempt_no),
            started_at: Some(copy_text(a.started_at.as_str())),
            finished_at: Some(copy_text(a.finished_at.as_str())),
            request_headers: Some(copy_text(a.request_headers.as_str())),
            request_body: Some(copy_text(a.request_body.as_str())),
            response_status: a.response_status,
            response_headers: copy_opt_text(&a.response_headers),
            response_body: copy_opt_text(&a.response_body),
            error_kind: copy_opt_text(&a.error_kind),
            error_message: copy_opt_text(&a.error_message),
        }
    }

    /// The positions of the attempts of the event `id`, in listing order.
    fn attempts_of(&self, id: &str) -> (order: Vec<usize>)
        ensures
            is_attempt_listing(self@, id@, positions(order@)),
    {
        let mut keys: Vec<SortKey> = Vec::new();
        let mut i: usize = 0;
        while i < self.attempts.len()
            invariant
                i <= self.attempts.len(),
                forall|k: int|
                    0 <= k < keys.len() ==> (#[trigger] keys_view(keys@)[k]).position < i
                        && self@.attempts[keys_view(keys@)[k].position as int].event_id == id@
                        && keys_view(keys@)[k] == attempt_key(
                        self@,
                        keys_view(keys@)[k].position as int,
                    ),
                forall|j: int, k: int|
                    0 <= j < k < keys.len() ==> (#[trigger] keys_view(keys@)[j]).position < (
                    #[trigger] keys_view(keys@)[k]).position,
                forall|p: int|
                    0 <= p < i && (#[trigger] self@.attempts[p]).event_id == id@ ==> member(
                        keys_view(keys@),
                        attempt_key(self@, p),
                    ),
            decreases self.attempts.len() - i,
        {
            assert(self@.attempts[i as int] == self.attempts[i as int]@);
            if str_eq(self.attempts[i].event_id.as_str(), id) {
                let ghost before = keys_view(keys@);
                let key = SortKey {
                    major: copy_text(self.attempts[i].started_at.as_str()),
                    minor: String::new(),
                    number: self.attempts[i].attempt_no,
                    position: i,
                };
                assert(key@ == attempt_key(self@, i as int));
                keys.push(key);
                proof {
                    let after = keys_view(keys@);
                    assert(after =~= before.push(attempt_key(self@, i as int)));
                    assert forall|p: int|
                        0 <= p < i + 1 && (#[trigger] self@.attempts[p]).event_id
                            == id@ implies member(after, attempt_key(self@, p)) by {
                        if p < i {
                            let w = choose|w: int|
                                0 <= w < before.len() && before[w] == attempt_key(self@, p);
                            assert(after[w] == attempt_key(self@, p));
                        } else {
                            assert(after[before.len() as int] == attempt_key(self@, p));
                        }
                    }
                }
            }
            i = i + 1;
        }
        let ghost unsorted = keys_view(keys@);
        let sorted = sort_keys(keys);
        let ghost ordered = keys_view(sorted@);
        let mut order: Vec<usize> = Vec::new();
        let mut n: usize = 0;
        while n < sorted.len()
            invariant
                n <= sorted.len(),
                ordered == keys_view(sorted@),
                order.len() == n,
                forall|k: int| 0 <= k < n ==> #[trigger] order@[k] == ordered[k].position,
            decreases sorted.len() - n,
        {
            assert(ordered[n as int] == sorted@[n as int]@);
            order.push(sorted[n].position);
            n = n + 1;
        }
        proof {
            let listed = positions(order@);
            assert forall|k: int| 0 <= k < listed.len() implies 0 <= #[trigger] listed[k]
                < self@.attempts.len() && self@.attempts[listed[k]].event_id == id@ && ordered[k]
                == attempt_key(self@, listed[k]) by {
                let w = choose|w: int| 0 <= w < unsorted.len() && unsorted[w] == ordered[k];
                assert(unsorted[w].position == listed[k]);
            }
            assert forall|i: int|
                0 <= i < self@.attempts.len() && (#[trigger] self@.attempts[i]).event_id
                    == id@ implies listed.contains(i) by {
                let w = choose|w: int| 0 <= w < unsorted.len() && unsorted[w] == attempt_key(self@, i);
                let v = choose|v: int| 0 <= v < ordered.len() && ordered[v] == unsorted[w];
                assert(listed[v] == i);
            }
        }
        order
    }
}

/// The attempts made on an event, oldest first.
///
/// An event that was never attempted has an empty list, which is no error.
pub fn list_attempts(store: &Store, event_id: u128) -> (r: Result<
    ListAttemptsResponse,
    StoreError,
>)
    ensures
        exists|order: Seq<int>| list_attempts_outcome(store@, event_id, order, r),
{
    let id = write_uuid(event_id);
    if store.find_event(id.as_str()).is_none() {
        let r = Err(StoreError::NotFound(copy_text("event not found")));
        assert(list_attempts_outcome(store@, event_id, Seq::<int>::empty(), r));
        return r;
    }
    let order = store.attempts_of(id.as_str());
    let ghost listed = positions(order@);
    let mut attempts: Vec<WebhookAttemptLog> = Vec::new();
    let mut n: usize = 0;
    while n < order.len()
        invariant
            n <= order.len(),
            listed == positions(order@),
            is_attempt_listing(store@, id@, listed),
            id@ == uuid_text(event_id),
            position(store@.event_ids(), uuid_text(event_id)) is Some,
            attempts.len() == n,
            forall|k: int|
                0 <= k < n ==> attempt_of_row(joined_attempt(store@, #[trigger] listed[k])) == Ok::<
                    Option<WebhookAttemptLogView>,
                    StoreErrorView,
                >(Some(attempts[k]@)),
        decreases order.len() - n,
    {
        assert(listed[n as int] == order@[n as int]);
        let row = store.joined_attempt(order[n]);
        match attempt_from_optional_row(row) {
            Ok(Some(attempt)) => {
                attempts.push(attempt);
            },
            Ok(None) => {
                assert(false);
            },
            Err(e) => {
                let r = Err(e);
                assert(attempts_read(store@, listed, r)) by {
                    assert(attempt_of_row(joined_attempt(store@, listed[n as int])) is Err);
                }
                assert(list_attempts_outcome(store@, event_id, listed, r));
                return r;
            },
        }
        n = n + 1;
    }
    let r = Ok(ListAttemptsResponse { attempts });
    assert(list_attempts_outcome(store@, event_id, listed, r));
    r
}

/// What narrows a listing, and where it starts.
#[derive(Debug, Clone, PartialEq, Eq)]
pub struct ListEventsParams {
    pub limit: i64,
    pub before: Option<InspectorCursor>,
    pub status: Option<WebhookEventStatus>,
    pub endpoint_id: Option<u128>,
    pub provider: Option<String>,
}

/// What a `ListEventsParams` holds.
pub struct ListEventsParamsView {
    pub limit: i64,
    pub before: Option<InspectorCursorView>,
    pub status: Option<WebhookEventStatus>,
    pub endpoint_id: Option<u128>,
    pub provider: Option<Seq<char>>,
}

/// The view of a cursor that may be absent.
pub open spec fn cursor_view(cursor: Option<InspectorCursor>) -> Option<InspectorCursorView> {
    match cursor {
        Some(c) => Some(c@),
        None => None,
    }
}

impl View for ListEventsParams {
    type V = ListEventsParamsView;

    open spec fn view(&self) -> ListEventsParamsView {
        ListEventsParamsView {
            limit: self.limit,
            before: cursor_view(self.before),
            status: self.status,
            endpoint_id: self.endpoint_id,
            provider: self.provider.deep_view(),
        }
    }
}

/// One page of a listing, and the cursor to ask for the next page with where
/// there is one.
#[derive(Debug, Clone, PartialEq, Eq)]
pub struct ListEventsResult {
    pub events: Vec<WebhookEventListItem>,
    pub next_before: Option<InspectorCursor>,
}

/// The event comes after the cursor in a listing: it was received earlier,
/// or at the same time under a smaller id.
pub open spec fn after_cursor(e: EventRowView, cursor: InspectorCursorView) -> bool {
    text_lt(e.received_at, cursor.received_at) || (e.received_at == cursor.received_at && text_lt(
        e.id,
        uuid_text(cursor.id),
    ))
}

/// The event belongs to the listing that `params` ask for.
pub open spec fn listed(e: EventRowView, params: ListEventsParamsView) -> bool {
    &&& params.status matches Some(status) ==> e.status == status.text()
    &&& params.endpoint_id matches Some(id) ==> e.endpoint_id == uuid_text(id)
    &&& params.provider matches Some(provider) ==> e.provider == provider
    &&& params.before matches Some(cursor) ==> after_cursor(e, cursor)
}

/// What an event is ordered by in a listing: when it was received, then its
/// id.
pub open spec fn list_key(store: StoreView, i: int) -> SortKeyView {
    SortKeyView {
        major: store.events[i].received_at,
        minor: store.events[i].id,
        number: 0,
        position: i as usize,
    }
}

/// `order` lists the positions of the events that belong to the listing,
/// each once, latest first.
pub open spec fn is_listing(store: StoreView, params: ListEventsParamsView, order: Seq<int>) -> bool {
    &&& forall|k: int|
        0 <= k < order.len() ==> 0 <= #[trigger] order[k] < store.events.len() && listed(
            store.events[order[k]],
            params,
        )
    &&& forall|j: int, k: int|
        0 <= j < k < order.len() ==> key_lt(
            list_key(store, #[trigger] order[k]),
            list_key(store, #[trigger] order[j]),
        )
    &&& forall|i: int|
        0 <= i < store.events.len() && listed(#[trigger] store.events[i], params)
            ==> order.contains(i)
}

/// How many events a page of the listing `order` holds.
pub open spec fn page_len(order: Seq<int>, limit: i64) -> int {
    if order.len() > limit {
        limit as int
    } else {
        order.len() as int
    }
}

/// `r` is the first page of the listing `order`: its first `limit` lines,
/// with a cursor at the last of them if the listing goes on; or the error of
/// the first of those lines that cannot be read.
pub open spec fn page_read(
    store: StoreView,
    order: Seq<int>,
    limit: i64,
    r: Result<ListEventsResult, StoreError>,
) -> bool {
    let take = page_len(order, limit);
    match r {
        Ok(page) => {
            &&& page.events.len() == take
            &&& forall|k: int|
                0 <= k < take ==> (list_item_of_row(store.joined_event(#[trigger] order[k]))
                    matches Ok(pair) && pair.0 == page.events[k]@)
            &&& cursor_view(page.next_before) == if order.len() > limit {
                match list_item_of_row(store.joined_event(order[take - 1])) {
                    Ok(pair) => Some(pair.1),
                    Err(_) => None,
                }
            } else {
                None
            }
        },
        Err(e) => exists|k: int|
            0 <= k < take && list_item_of_row(store.joined_event(#[trigger] order[k])) == Err::<
                (WebhookEventListItemView, InspectorCursorView),
                StoreErrorView,
            >(e@) && forall|j: int|
                0 <= j < k ==> list_item_of_row(store.joined_event(#[trigger] order[j])) is Ok,
    }
}

/// Asking for a page of the events that stand at `order` came to `r`.
pub open spec fn list_events_outcome(
    store: StoreView,
    params: ListEventsParamsView,
    order: Seq<int>,
    r: Result<ListEventsResult, StoreError>,
) -> bool {
    is_listing(store, params, order) && page_read(store, order, params.limit, r)
}

impl Store {
    /// Whether the event at position `i` belongs to the listing.
    fn is_listed(
        &self,
        i: usize,
        params: &ListEventsParams,
        endpoint: &Option<String>,
        before_id: &Option<String>,
    ) -> (r: bool)
        requires
            i < self@.events.len(),
            endpoint.deep_view() == match params.endpoint_id {
                Some(id) => Some(uuid_text(id)),
                None => None,
            },
            before_id.deep_view() == match params.before {
                Some(c) => Some(uuid_text(c.id)),
                None => None,
            },
        ensures
            r == listed(self@.events[i as int], params@),
    {
        let e = &self.events[i];
        assert(self@.events[i as int] == e@);
        if let Some(status) = params.status {
            if !str_eq(e.status.as_str(), status_to_str(status)) {
                return false;
            }
        }
        if let Some(id) = endpoint {
            if !str_eq(e.endpoint_id.as_str(), id.as_str()) {
                return false;
            }
        }
        if let Some(provider) = &params.provider {
            if !str_eq(e.provider.as_str(), provider.as_str()) {
                return false;
            }
        }
        match (&params.before, before_id) {
            (Some(cursor), Some(id)) => {
                str_lt(e.received_at.as_str(), cursor.received_at.as_str()) || (str_eq(
                    e.received_at.as_str(),
                    cursor.received_at.as_str(),
                ) && str_lt(e.id.as_str(), id.as_str()))
            },
            _ => true,
        }
    }

    /// The positions of the events that belong to the listing, latest first.
    fn listing(&self, params: &ListEventsParams) -> (order: Vec<usize>)
        ensures
            is_listing(self@, params@, positions(order@)),
    {
        let endpoint = match params.endpoint_id {
            Some(id) => Some(write_uuid(id)),
            None => None,
        };
        let before_id = match &params.before {
            Some(c) => Some(write_uuid(c.id)),
            None => None,
        };
        let mut keys: Vec<SortKey> = Vec::new();
        let mut i: usize = 0;
        while i < self.events.len()
            invariant
                i <= self.events.len(),
                endpoint.deep_view() == match params.endpoint_id {
                    Some(id) => Some(uuid_text(id)),
                    None => None,
                },
                before_id.deep_view() == match params.before {
                    Some(c) => Some(uuid_text(c.id)),
                    None => None,
                },
                forall|k: int|
                    0 <= k < keys.len() ==> (#[trigger] keys_view(keys@)[k]).position < i && listed(
                        self@.events[keys_view(keys@)[k].position as int],
                        params@,
                    ) && keys_view(keys@)[k] == list_key(
                        self@,
                        keys_view(keys@)[k].position as int,
                    ),
                forall|j: int, k: int|
                    0 <= j < k < keys.len() ==> (#[trigger] keys_view(keys@)[j]).position < (
                    #[trigger] keys_view(keys@)[k]).position,
                forall|p: int|
                    0 <= p < i && listed(#[trigger] self@.events[p], params@) ==> member(
                        keys_view(keys@),
                        list_key(self@, p),
                    ),
            decreases self.events.len() - i,
        {
            assert(self@.events[i as int] == self.events[i as int]@);
            if self.is_listed(i, params, &endpoint, &before_id) {
                let ghost before = keys_view(keys@);
                let key = SortKey {
                    major: copy_text(self.events[i].received_at.as_str()),
                    minor: copy_text(self.events[i].id.as_str()),
                    number: 0,
                    position: i,
                };
                assert(key@ == list_key(self@, i as int));
                keys.push(key);
                proof {
                    let after = keys_view(keys@);
                    assert(after =~= before.push(list_key(self@, i as int)));
                    assert forall|p: int|
                        0 <= p < i + 1 && listed(#[trigger] self@.events[p], params@) implies member(
                        after,
                        list_key(self@, p),
                    ) by {
                        if p < i {
                            let w = choose|w: int|
                                0 <= w < before.len() && before[w] == list_key(self@, p);
                            assert(after[w] == list_key(self@, p));
                        } else {
                            assert(after[before.len() as int] == list_key(self@, p));
                        }
                    }
                }
            }
            i = i + 1;
        }
        let ghost unsorted = keys_view(keys@);
        let sorted = sort_keys(keys);
        let ghost ordered = keys_view(sorted@);
        let total = sorted.len();
        let mut order: Vec<usize> = Vec::new();
        let mut n: usize = 0;
        while n < total
            invariant
                n <= total,
                total == sorted.len(),
                ordered == keys_view(sorted@),
                order.len() == n,
                forall|k: int|
                    0 <= k < n ==> #[trigger] order@[k] == ordered[total - 1 - k].position,
            decreases total - n,
        {
            assert(ordered[total - 1 - n] == sorted@[total - 1 - n]@);
            order.push(sorted[total - 1 - n].position);
            n = n + 1;
        }
        proof {
            let shown = positions(order@);
            assert forall|k: int| 0 <= k < shown.len() implies 0 <= #[trigger] shown[k]
                < self@.events.len() && listed(self@.events[shown[k]], params@) && ordered[total
                - 1 - k] == list_key(self@, shown[k]) by {
                let w = choose|w: int|
                    0 <= w < unsorted.len() && unsorted[w] == ordered[total - 1 - k];
                assert(unsorted[w].position == shown[k]);
            }
            assert forall|j: int, k: int| 0 <= j < k < shown.len() implies key_lt(
                list_key(self@, #[trigger] shown[k]),
                list_key(self@, #[trigger] shown[j]),
            ) by {
                assert(key_lt(ordered[total - 1 - k], ordered[total - 1 - j]));
            }
            assert forall|i: int|
                0 <= i < self@.events.len() && listed(
                    #[trigger] self@.events[i],
                    params@,
                ) implies shown.contains(i) by {
                let w = choose|w: int| 0 <= w < unsorted.len() && unsorted[w] == list_key(self@, i);
                let v = choose|v: int| 0 <= v < ordered.len() && ordered[v] == unsorted[w];
                assert(shown[total - 1 - v] == i);
            }
        }
        order
    }
}

/// One page of events, latest first, and among events received at the same
/// time the larger id first.
///
/// The page holds the first `params.limit` of the events that match the
/// filters and come after the cursor `params.before`, if there is one. Where
/// more events follow, `next_before` points at the last event of the page:
/// asked with it, the listing goes on where this page ends.
pub fn list_events(store: &Store, params: &ListEventsParams) -> (r: Result<
    ListEventsResult,
    StoreError,
>)
    requires
        store.wf(),
        params.limit >= 1,
    ensures
        exists|order: Seq<int>| list_events_outcome(store@, params@, order, r),
{
    let order = store.listing(params);
    let ghost shown = positions(order@);
    let has_more = order.len() as u64 > params.limit as u64;
    let take_count = if has_more {
        params.limit as usize
    } else {
        order.len()
    };
    let mut events: Vec<WebhookEventListItem> = Vec::new();
    let mut last_cursor: Option<InspectorCursor> = None;
    let mut n: usize = 0;
    while n < take_count
        invariant
            n <= take_count <= order.len(),
            take_count == page_len(shown, params.limit),
            store.wf(),
            shown == positions(order@),
            is_listing(store@, params@, shown),
            events.len() == n,
            forall|k: int|
                0 <= k < n ==> (list_item_of_row(store@.joined_event(#[trigger] shown[k]))
                    matches Ok(pair) && pair.0 == events[k]@),
            n > 0 ==> (list_item_of_row(store@.joined_event(shown[n - 1])) matches Ok(pair)
                && cursor_view(last_cursor) == Some(pair.1)),
        decreases take_count - n,
    {
        assert(shown[n as int] == order@[n as int]);
        let row = store.joined_event(order[n]);
        match list_item_from_row(row) {
            Ok((item, cursor)) => {
                last_cursor = Some(cursor);
                events.push(item);
            },
            Err(e) => {
                let r = Err(e);
                assert(page_read(store@, shown, params.limit, r)) by {
                    assert(list_item_of_row(store@.joined_event(shown[n as int])) is Err);
                }
                assert(list_events_outcome(store@, params@, shown, r));
                return r;
            },
        }
        n = n + 1;
    }
    let next_before = if has_more {
        last_cursor
    } else {
        None
    };
    let r = Ok(ListEventsResult { events, next_before });
    assert(list_events_outcome(store@, params@, shown, r));
    r
}

/// Why an event cannot be replayed at `now`, if it cannot: there is no such
/// event, its row cannot be read, it is in flight under a lease that is
/// missing or still running, or the id for the new event is taken.
pub open spec fn replay_refusal(
    pre: StoreView,
    event_id: u128,
    now: Timestamp,
    new_event_id: u128,
) -> Option<StoreErrorView> {
    match position(pre.event_ids(), uuid_text(event_id)) {
        None => Some(StoreErrorView::NotFound("event not found"@)),
        Some(i) => {
            let e = pre.events[i];
            match WebhookEventStatus::from_text(e.status) {
                None => Some(StoreErrorView::Parse("unknown status: "@ + e.status)),
                Some(status) => match active_lease(e, status, now) {
                    Some(err) => Some(err),
                    None => if position(pre.event_ids(), uuid_text(new_event_id)) is Some {
                        Some(StoreErrorView::Db("UNIQUE constraint failed: webhook_events.id"@))
                    } else {
                        None
                    },
                },
            }
        },
    }
}

/// What stands in the way of replaying an event in flight: a missing lease,
/// one that cannot be read, or one that runs beyond `now`. An event that is
/// not in flight, or whose lease has run out, can be replayed.
pub open spec fn active_lease(
    e: EventRowView,
    status: WebhookEventStatus,
    now: Timestamp,
) -> Option<StoreErrorView> {
    if status != WebhookEventStatus::InFlight {
        None
    } else {
        match e.lease_expires_at {
            None => Some(StoreErrorView::Conflict("lease_missing"@)),
            Some(until) => match rfc3339_instant(until) {
                Err(_) => Some(StoreErrorView::Parse("invalid lease_expires_at"@)),
                Ok(at) => if instant_le(at.0, at.1, now) {
                    None
                } else {
                    Some(StoreErrorView::Conflict("lease_active"@))
                },
            },
        }
    }
}

/// The event that a replay of `source` makes: pending, never attempted,
/// with the endpoint, provider, headers, payload and time of receipt of the
/// source, and pointing back at it.
pub open spec fn replayed_event(source: EventRowView, source_id: u128, new_id: u128) -> EventRowView {
    EventRowView {
        id: uuid_text(new_id),
        endpoint_id: source.endpoint_id,
        replayed_from_event_id: Some(uuid_text(source_id)),
        provider: source.provider,
        headers: source.headers,
        payload: source.payload,
        status: WebhookEventStatus::Pending.text(),
        attempts: 0,
        received_at: source.received_at,
        next_attempt_at: None,
        lease_expires_at: None,
        leased_by: None,
        last_error: None,
    }
}

/// The store after a replay that was not refused: the new event is added,
/// and the circuit of its endpoint is reset if that was asked for. The
/// source stays as it was.
pub open spec fn replay_effect(
    pre: StoreView,
    event_id: u128,
    reset_circuit: bool,
    new_event_id: u128,
) -> StoreView {
    let source = pre.events[position(pre.event_ids(), uuid_text(event_id)).unwrap()];
    let added = StoreView {
        events: pre.events.push(replayed_event(source, event_id, new_event_id)),
        ..pre
    };
    if reset_circuit {
        added.with_circuit_reset(source.endpoint_id)
    } else {
        added
    }
}

/// What a replay that was not refused hands back, read from the store as the
/// replay left it: a summary of the new event and the circuit of its
/// endpoint.
pub open spec fn replay_answer(post: StoreView, event_id: u128, new_event_id: u128) -> Result<
    ReplayEventResponseView,
    StoreErrorView,
> {
    let row = post.joined_event(post.events.len() - 1);
    match id_of_text(row.event.endpoint_id, "invalid endpoint id: "@) {
        Err(err) => Err(err),
        Ok(endpoint_id) => match circuit_of_row(row) {
            Err(err) => Err(err),
            Ok(circuit) => Ok(
                ReplayEventResponseView {
                    event: WebhookEventSummaryView {
                        id: new_event_id,
                        endpoint_id,
                        replayed_from_event_id: Some(event_id),
                        provider: row.event.provider,
                        status: WebhookEventStatus::Pending,
                        attempts: 0,
                        received_at: row.event.received_at,
                        next_attempt_at: None,
                        last_error: None,
                    },
                    circuit,
                },
            ),
        },
    }
}

fn check_replayable(e: &crate::tables::EventRow, status: WebhookEventStatus, now: Timestamp) -> (r:
    Option<StoreError>)
    ensures
        match r {
            Some(err) => active_lease(e@, status, now) == Some(err@),
            None => active_lease(e@, status, now) is None,
        },
{
    if !matches!(status, WebhookEventStatus::InFlight) {
        return None;
    }
    let until = match &e.lease_expires_at {
        Some(until) => until,
        None => {
            return Some(StoreError::Conflict(copy_text("lease_missing")));
        },
    };
    match parse_instant(until.as_str()) {
        Err(_) => Some(StoreError::Parse(copy_text("invalid lease_expires_at"))),
        Ok(expires) => {
            if expires.at_or_before(&now) {
                None
            } else {
                Some(StoreError::Conflict(copy_text("lease_active")))
            }
        },
    }
}

/// Replays an event: adds a new pending event under `new_event_id` that
/// carries what the source carried and points back at it.
///
/// The source is never changed. An event in flight can be replayed only once
/// its lease has run out. With `reset_circuit` the circuit of the endpoint is
/// closed and its count of failures cleared. A replay that was made stands
/// even where the answer then cannot be built because the endpoint id or the
/// state of the circuit cannot be read, which is reported as an error.
pub fn replay_event(
    store: &mut Store,
    event_id: u128,
    reset_circuit: bool,
    now: Timestamp,
    new_event_id: u128,
) -> (r: Result<ReplayEventResponse, StoreError>)
    requires
        old(store).wf(),
    ensures
        final(store).wf(),
        match replay_refusal(old(store)@, event_id, now, new_event_id) {
            Some(err) => r matches Err(e) && e@ == err && final(store)@ == old(store)@,
            None => final(store)@ == replay_effect(
                old(store)@,
                event_id,
                reset_circuit,
                new_event_id,
            ) && match r {
                Ok(res) => replay_answer(final(store)@, event_id, new_event_id) == Ok::<
                    ReplayEventResponseView,
                    StoreErrorView,
                >(res@),
                Err(e) => replay_answer(final(store)@, event_id, new_event_id) == Err::<
                    ReplayEventResponseView,
                    StoreErrorView,
                >(e@),
            },
        },
{
    let ghost pre = store@;
    let source_id = write_uuid(event_id);
    let idx = match store.find_event(source_id.as_str()) {
        Some(i) => i,
        None => {
            return Err(StoreError::NotFound(copy_text("event not found")));
        },
    };
    assert(pre.events[idx as int] == store.events[idx as int]@);
    let status = match parse_status(store.events[idx].status.as_str()) {
        Ok(s) => s,
        Err(e) => {
            return Err(e);
        },
    };
    match check_replayable(&store.events[idx], status, now) {
        Some(err) => {
            return Err(err);
        },
        None => {},
    }
    let new_id = write_uuid(new_event_id);
    if store.find_event(new_id.as_str()).is_some() {
        return Err(StoreError::Db(copy_text("UNIQUE constraint failed: webhook_events.id")));
    }
    let source = &store.events[idx];
    let endpoint_text = copy_text(source.endpoint_id.as_str());
    let provider = copy_text(source.provider.as_str());
    let received_at = copy_text(source.received_at.as_str());
    let row = crate::tables::EventRow {
        id: new_id,
        endpoint_id: copy_text(source.endpoint_id.as_str()),
        replayed_from_event_id: Some(source_id),
        provider: copy_text(source.provider.as_str()),
        headers: copy_text(source.headers.as_str()),
        payload: copy_text(source.payload.as_str()),
        status: copy_text(WebhookEventStatus::Pending.as_str()),
        attempts: 0,
        received_at: copy_text(source.received_at.as_str()),
        next_attempt_at: None,
        lease_expires_at: None,
        leased_by: None,
        last_error: None,
    };
    assert(row@ == replayed_event(pre.events[idx as int], event_id, new_event_id));
    store.events.push(row);
    let ghost added = StoreView {
        events: pre.events.push(replayed_event(pre.events[idx as int], event_id, new_event_id)),
        ..pre
    };
    proof {
        assert(store@.events =~= added.events);
        assert(store@.endpoints =~= added.endpoints);
        assert(store@.attempts =~= added.attempts);
        assert(store@.circuits =~= added.circuits);
        assert(added.event_ids() =~= pre.event_ids().push(uuid_text(new_event_id)));
        assert(added.endpoint_ids() =~= pre.endpoint_ids());
        assert(added.circuit_keys() =~= pre.circuit_keys());
        lemma_position(pre.event_ids(), uuid_text(new_event_id));
        assert forall|k: int| 0 <= k < added.events.len() implies position(
            added.endpoint_ids(),
            (#[trigger] added.events[k]).endpoint_id,
        ) is Some by {
            if k < pre.events.len() {
                assert(added.events[k] == pre.events[k]);
            } else {
                assert(added.events[k].endpoint_id == pre.events[idx as int].endpoint_id);
            }
        }
        assert(added.wf());
    }
    if reset_circuit {
        store.reset_circuit(endpoint_text.as_str());
    }
    let joined = store.joined_event(store.events.len() - 1);
    let endpoint_id = match read_id(endpoint_text.as_str(), "invalid endpoint id: ") {
        Ok(id) => id,
        Err(e) => {
            return Err(e);
        },
    };
    let circuit = match map_circuit(
        endpoint_text.as_str(),
        opt_str(&joined.circuit_state),
        opt_str(&joined.circuit_open_until),
        joined.circuit_consecutive_failures,
        opt_str(&joined.circuit_last_failure_at),
    ) {
        Ok(c) => c,
        Err(e) => {
            return Err(e);
        },
    };
    let summary = WebhookEventSummary {
        id: new_event_id,
        endpoint_id,
        replayed_from_event_id: Some(event_id),
        provider,
        status: WebhookEventStatus::Pending,
        attempts: 0,
        received_at,
        next_attempt_at: None,
        last_error: None,
    };
    Ok(ReplayEventResponse { event: summary, circuit })
}

} // verus!
