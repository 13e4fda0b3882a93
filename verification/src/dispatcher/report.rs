//! The report engine: what a worker's report on a leased event does to the
//! event, to the log of attempts and to the circuit of the endpoint.

use vstd::pervasive::unreached;
use vstd::prelude::*;

use crate::dispatcher::circuit::{
    circuit_snapshot, closed_circuit, failure_fits, failure_in_reach, failure_snapshot,
    failures_on_record, update_circuit_on_failure,
};
use crate::dispatcher::config::DispatcherConfig;
use crate::ids::{read_uuid, uuid_from_text, uuid_text, write_uuid};
use crate::json::{text_map_to_json, write_text_map};
use crate::tables::{
    position, AttemptRow, AttemptRowView, EventRow, EventRowView, Store, StoreError, StoreErrorView,
    StoreView,
};
use crate::text::{copy_opt_text, copy_text, decimal_string, decimal_text, join_text, str_eq};
use crate::time::{
    backoff_delay, backoff_secs, format_utc, instant_le, instant_text, parse_instant,
    rfc3339_instant, write_instant, Timestamp,
};
use crate::types::dispatcher::{ReportAttempt, ReportAttemptView, ReportRequest, ReportRequestView};
use crate::types::target_circuit_state::{circuit_view, TargetCircuitStateView};
use crate::types::{
    ReportOutcome, TargetCircuitState, TargetCircuitStatus, WebhookAttemptErrorKind,
    WebhookEventStatus,
};

verus! {

/// What a report came to: the circuit of the endpoint, where the report
/// touched it, and the outcome that was recorded.
#[derive(Debug, Clone, PartialEq, Eq)]
pub struct ReportResult {
    pub circuit: Option<TargetCircuitState>,
    pub final_outcome: ReportOutcome,
}

/// What a `ReportResult` holds.
pub struct ReportResultView {
    pub circuit: Option<TargetCircuitStateView>,
    pub final_outcome: ReportOutcome,
}

impl View for ReportResult {
    type V = ReportResultView;

    open spec fn view(&self) -> ReportResultView {
        ReportResultView { circuit: circuit_view(self.circuit), final_outcome: self.final_outcome }
    }
}

/// The kind of an error as the store spells it.
pub fn error_kind_to_str(kind: WebhookAttemptErrorKind) -> (r: &'static str)
    ensures
        r@ == kind.text(),
{
    kind.as_str()
}

/// Why the holder of a lease may not report on the event, if it may not:
/// the event is leased to nobody or to another worker, or the lease has run
/// out. A lease whose expiry cannot be read is taken to hold.
pub open spec fn lease_refusal(e: EventRowView, worker: Seq<char>, now: Timestamp) -> Option<
    Seq<char>,
> {
    match e.leased_by {
        None => Some("lease_missing"@),
        Some(holder) => if holder != worker {
            Some("lease_not_owned"@)
        } else {
            match e.lease_expires_at {
                None => Some("lease_missing"@),
                Some(until) => match rfc3339_instant(until) {
                    Ok(at) => if instant_le(at.0, at.1, now) {
                        Some("lease_expired"@)
                    } else {
                        None
                    },
                    Err(_) => None,
                },
            }
        },
    }
}

/// The attempt now reported uses up the budget.
pub open spec fn attempts_exhausted(config: DispatcherConfig, attempts: i64) -> bool {
    attempts + 1 >= config.max_attempts
}

/// The outcome that is recorded: a retry that the budget no longer covers
/// becomes `Dead`; every other outcome stands.
pub open spec fn final_outcome(
    config: DispatcherConfig,
    attempts: i64,
    outcome: ReportOutcome,
) -> ReportOutcome {
    if attempts_exhausted(config, attempts) && outcome == ReportOutcome::Retry {
        ReportOutcome::Dead
    } else {
        outcome
    }
}

/// What an attempt says went wrong: its message, or else its kind of error.
pub open spec fn failure_text(attempt: ReportAttemptView) -> Option<Seq<char>> {
    match attempt.error_message {
        Some(m) => Some(m),
        None => match attempt.error_kind {
            Some(k) => Some(k.text()),
            None => None,
        },
    }
}

/// The error recorded when the budget runs out.
pub open spec fn exhausted_text(config: DispatcherConfig, attempt: ReportAttemptView) -> Seq<
    char,
> {
    "max_attempts_exceeded ("@ + decimal_text(config.max_attempts as nat) + "): "@
        + match attempt.error_message {
        Some(m) => m,
        None => "unknown"@,
    }
}

/// The `last_error` an event is left with.
pub open spec fn last_error_text(
    config: DispatcherConfig,
    attempts: i64,
    outcome: ReportOutcome,
    attempt: ReportAttemptView,
) -> Option<Seq<char>> {
    match final_outcome(config, attempts, outcome) {
        ReportOutcome::Delivered => None,
        ReportOutcome::Retry => failure_text(attempt),
        ReportOutcome::Dead => if outcome == ReportOutcome::Retry {
            Some(exhausted_text(config, attempt))
        } else {
            failure_text(attempt)
        },
    }
}

/// A caller's timestamp as the store keeps it: the same instant in UTC, cut
/// to whole seconds.
pub open spec fn normalized_text(value: Seq<char>) -> Result<Seq<char>, StoreErrorView> {
    match rfc3339_instant(value) {
        Ok(at) => Ok(instant_text(at.0, at.1)),
        Err(e) => Err(StoreErrorView::Parse("invalid next_attempt_at: "@ + e)),
    }
}

/// When the store schedules the attempt after attempt `attempt_no`, left to
/// itself.
pub open spec fn backoff_text(now: Timestamp, attempt_no: int) -> Seq<char> {
    now.add_millis(backoff_secs(attempt_no) * 1000).text()
}

/// When the next attempt is due: when the caller says, or else after the
/// backoff.
pub open spec fn next_attempt_text(
    wanted: Option<Seq<char>>,
    now: Timestamp,
    attempt_no: int,
) -> Result<Seq<char>, StoreErrorView> {
    match wanted {
        Some(value) => normalized_text(value),
        None => Ok(backoff_text(now, attempt_no)),
    }
}

/// Response headers as JSON, where there are any.
pub open spec fn response_headers_json(headers: Option<Map<Seq<char>, Seq<char>>>) -> Result<
    Option<Seq<char>>,
    Seq<char>,
> {
    match headers {
        Some(h) => match text_map_to_json(h) {
            Ok(text) => Ok(Some(text)),
            Err(e) => Err(e),
        },
        None => Ok(None),
    }
}

/// Why a report is turned away, if it is; the checks in the order they are
/// made.
pub open spec fn report_refusal(
    pre: StoreView,
    config: DispatcherConfig,
    req: ReportRequestView,
    now: Timestamp,
) -> Option<StoreErrorView> {
    match position(pre.event_ids(), uuid_text(req.event_id)) {
        None => Some(StoreErrorView::NotFound("event not found"@)),
        Some(i) => {
            let e = pre.events[i];
            match lease_refusal(e, req.worker_id, now) {
                Some(m) => Some(StoreErrorView::Conflict(m)),
                None => match text_map_to_json(req.attempt.request_headers) {
                    Err(err) => Some(
                        StoreErrorView::Parse("invalid request headers JSON: "@ + err),
                    ),
                    Ok(_) => match response_headers_json(req.attempt.response_headers) {
                        Err(err) => Some(
                            StoreErrorView::Parse("invalid response headers JSON: "@ + err),
                        ),
                        Ok(_) => match uuid_from_text(e.endpoint_id) {
                            Err(err) => Some(
                                StoreErrorView::Parse("invalid endpoint id: "@ + err),
                            ),
                            Ok(_) => if final_outcome(config, e.attempts, req.outcome)
                                == ReportOutcome::Retry {
                                match next_attempt_text(
                                    req.next_attempt_at,
                                    now,
                                    e.attempts + 1,
                                ) {
                                    Err(err) => Some(err),
                                    Ok(_) => None,
                                }
                            } else {
                                None
                            },
                        },
                    },
                },
            }
        },
    }
}

/// The status an outcome leaves an event in.
pub open spec fn outcome_status(outcome: ReportOutcome) -> WebhookEventStatus {
    match outcome {
        ReportOutcome::Delivered => WebhookEventStatus::Delivered,
        ReportOutcome::Retry => WebhookEventStatus::Pending,
        ReportOutcome::Dead => WebhookEventStatus::Dead,
    }
}

/// The event row after the report: one more attempt, no lease, and the
/// status, schedule and error that the recorded outcome calls for.
pub open spec fn reported_event(
    e: EventRowView,
    config: DispatcherConfig,
    req: ReportRequestView,
    now: Timestamp,
) -> EventRowView {
    let outcome = final_outcome(config, e.attempts, req.outcome);
    EventRowView {
        status: outcome_status(outcome).text(),
        attempts: (e.attempts + 1) as i64,
        next_attempt_at: if outcome == ReportOutcome::Retry {
            match next_attempt_text(req.next_attempt_at, now, e.attempts + 1) {
                Ok(text) => Some(text),
                Err(_) => None,
            }
        } else {
            None
        },
        lease_expires_at: None,
        leased_by: None,
        last_error: last_error_text(config, e.attempts, req.outcome, req.attempt),
        ..e
    }
}

/// The row that logs the attempt.
pub open spec fn attempt_log_row(
    e: EventRowView,
    req: ReportRequestView,
    attempt_id: u128,
) -> AttemptRowView {
    AttemptRowView {
        id: uuid_text(attempt_id),
        event_id: uuid_text(req.event_id),
        attempt_no: (e.attempts + 1) as i64,
        started_at: req.attempt.started_at,
        finished_at: req.attempt.finished_at,
        request_headers: match text_map_to_json(req.attempt.request_headers) {
            Ok(text) => text,
            Err(_) => Seq::empty(),
        },
        request_body: req.attempt.request_body,
        response_status: req.attempt.response_status,
        response_headers: match response_headers_json(req.attempt.response_headers) {
            Ok(text) => text,
            Err(_) => None,
        },
        response_body: req.attempt.response_body,
        error_kind: match req.attempt.error_kind {
            Some(k) => Some(k.text()),
            None => None,
        },
        error_message: req.attempt.error_message,
    }
}

/// The store after a report that was not turned away.
pub open spec fn report_effect(
    pre: StoreView,
    config: DispatcherConfig,
    req: ReportRequestView,
    now: Timestamp,
    attempt_id: u128,
    scaled_ms: u64,
) -> StoreView {
    let i = position(pre.event_ids(), uuid_text(req.event_id)).unwrap();
    let e = pre.events[i];
    let logged = StoreView {
        events: pre.events.update(i, reported_event(e, config, req, now)),
        attempts: pre.attempts.push(attempt_log_row(e, req, attempt_id)),
        ..pre
    };
    if final_outcome(config, e.attempts, req.outcome) == ReportOutcome::Delivered {
        logged.with_circuit_reset(e.endpoint_id)
    } else {
        logged.with_failure(e.endpoint_id, config, now, req.retryable, scaled_ms)
    }
}

/// What a report that was not turned away hands back.
pub open spec fn report_result(
    pre: StoreView,
    config: DispatcherConfig,
    req: ReportRequestView,
    now: Timestamp,
    scaled_ms: u64,
) -> ReportResultView {
    let i = position(pre.event_ids(), uuid_text(req.event_id)).unwrap();
    let e = pre.events[i];
    let endpoint = match uuid_from_text(e.endpoint_id) {
        Ok(id) => id,
        Err(_) => 0u128,
    };
    let outcome = final_outcome(config, e.attempts, req.outcome);
    ReportResultView {
        circuit: if outcome == ReportOutcome::Delivered {
            if position(pre.circuit_keys(), e.endpoint_id) is Some {
                Some(circuit_snapshot(closed_circuit(e.endpoint_id), endpoint))
            } else {
                None
            }
        } else {
            failure_snapshot(pre, e.endpoint_id, endpoint, config, now, req.retryable, scaled_ms)
        },
        final_outcome: outcome,
    }
}

/// When the attempt after attempt `attempt_no` is due if the caller names no
/// time: one second after the first attempt, twice as long after each
/// further one, an hour at most.
pub fn compute_next_attempt_at(now: Timestamp, attempt_no: i64) -> (r: String)
    requires
        now.in_range(),
    ensures
        r@ == backoff_text(now, attempt_no as int),
{
    let delay_secs = backoff_delay(attempt_no);
    format_utc(now.plus_millis(delay_secs * 1000))
}

/// Brings a caller's RFC 3339 timestamp into the form the store keeps: UTC,
/// whole seconds.
pub fn normalize_rfc3339_utc(value: &str) -> (r: Result<String, StoreError>)
    ensures
        match r {
            Ok(text) => normalized_text(value@) == Ok::<Seq<char>, StoreErrorView>(text@),
            Err(e) => normalized_text(value@) == Err::<Seq<char>, StoreErrorView>(e@),
        },
{
    match parse_instant(value) {
        Ok(at) => match write_instant(at) {
            Some(text) => Ok(text),
            None => unreached(),
        },
        Err(err) => Err(StoreError::Parse(join_text("invalid next_attempt_at: ", err.as_str()))),
    }
}

fn conflict(message: &str) -> (r: StoreError)
    ensures
        r@ == StoreErrorView::Conflict(message@),
{
    StoreError::Conflict(copy_text(message))
}

/// Checks that `worker` holds a lease on the event that has not run out.
fn check_lease(e: &EventRow, worker: &str, now: Timestamp) -> (r: Option<StoreError>)
    ensures
        match r {
            Some(err) => lease_refusal(e@, worker@, now) matches Some(m)
                && err@ == StoreErrorView::Conflict(m),
            None => lease_refusal(e@, worker@, now) is None,
        },
{
    let holder = match &e.leased_by {
        Some(holder) => holder,
        None => {
            return Some(conflict("lease_missing"));
        },
    };
    if !str_eq(holder.as_str(), worker) {
        return Some(conflict("lease_not_owned"));
    }
    let until = match &e.lease_expires_at {
        Some(until) => until,
        None => {
            return Some(conflict("lease_missing"));
        },
    };
    match parse_instant(until.as_str()) {
        Ok(expires) => {
            if expires.at_or_before(&now) {
                return Some(conflict("lease_expired"));
            }
        },
        Err(_) => {},
    }
    None
}

/// The error an event is left with.
fn last_error_for(
    config: &DispatcherConfig,
    attempts: i64,
    outcome: ReportOutcome,
    attempt: &ReportAttempt,
) -> (r: Option<String>)
    requires
        attempts < i64::MAX,
    ensures
        r.deep_view() == last_error_text(*config, attempts, outcome, attempt@),
{
    let exhausted = attempts + 1 >= config.max_attempts as i64;
    let coerced = exhausted && matches!(outcome, ReportOutcome::Retry);
    if matches!(outcome, ReportOutcome::Delivered) {
        return None;
    }
    if coerced {
        let head = join_text(
            "max_attempts_exceeded (",
            decimal_string(config.max_attempts as u64).as_str(),
        );
        let head = head.concat("): ");
        let text = match &attempt.error_message {
            Some(m) => head.concat(m.as_str()),
            None => head.concat("unknown"),
        };
        return Some(text);
    }
    match &attempt.error_message {
        Some(m) => Some(copy_text(m.as_str())),
        None => match attempt.error_kind {
            Some(kind) => Some(copy_text(error_kind_to_str(kind))),
            None => None,
        },
    }
}

/// What the report would count up can be counted up, and what it would add
/// to `now` can be added: the attempts of the event are not at the end of
/// their range, and where the report charges the circuit of the endpoint with
/// a failure, that failure is in reach. A report on an event that is not
/// there asks nothing.
pub open spec fn report_in_reach(
    store: StoreView,
    config: DispatcherConfig,
    req: ReportRequestView,
    now: Timestamp,
    scaled_ms: u64,
) -> bool {
    match position(store.event_ids(), uuid_text(req.event_id)) {
        None => true,
        Some(i) => {
            &&& store.events[i].attempts < i64::MAX
            &&& req.retryable && req.outcome != ReportOutcome::Delivered ==> failure_in_reach(
                store,
                store.events[i].endpoint_id,
                config,
                now,
                scaled_ms,
            )
        },
    }
}

/// Whether the report is in reach.
pub fn report_fits(
    store: &Store,
    config: &DispatcherConfig,
    req: &ReportRequest,
    now: Timestamp,
    scaled_ms: u64,
) -> (r: bool)
    ensures
        r == report_in_reach(store@, *config, req@, now, scaled_ms),
{
    let id = write_uuid(req.event_id);
    match store.find_event(id.as_str()) {
        None => true,
        Some(i) => {
            assert(store@.events[i as int] == store.events[i as int]@);
            if store.events[i].attempts == i64::MAX {
                return false;
            }
            if req.retryable && !matches!(req.outcome, ReportOutcome::Delivered) {
                failure_fits(store, store.events[i].endpoint_id.as_str(), config, now, scaled_ms)
            } else {
                true
            }
        },
    }
}

/// What `report_delivery` comes to: `r` and the store it leaves.
pub open spec fn report_outcome(
    pre: StoreView,
    post: StoreView,
    config: DispatcherConfig,
    req: ReportRequestView,
    now: Timestamp,
    attempt_id: u128,
    scaled_ms: u64,
    r: Result<ReportResult, StoreError>,
) -> bool {
    match r {
        Err(e) => report_refusal(pre, config, req, now) == Some(e@) && post == pre,
        Ok(res) => report_refusal(pre, config, req, now) is None && post == report_effect(
            pre,
            config,
            req,
            now,
            attempt_id,
            scaled_ms,
        ) && res@ == report_result(pre, config, req, now, scaled_ms),
    }
}

/// Records what a worker reports of its attempt on an event it holds.
///
/// The report is turned away, and the store left as it was, where the event
/// is unknown, where the worker's lease is missing, another's or run out, and
/// where the request or the row cannot be read. Otherwise the event leaves its
/// lease with one attempt more, delivered, pending again or dead; a retry that
/// the attempt budget no longer covers leaves it dead. The attempt is logged
/// under `attempt_id`, and the circuit of the endpoint is reset by a delivery
/// and charged with a failure otherwise. `scaled_cooldown_ms` is the cooldown
/// that failure would earn before the cap, as `update_circuit_on_failure`
/// takes it.
pub fn report_delivery(
    store: &mut Store,
    config: &DispatcherConfig,
    req: &ReportRequest,
    now: Timestamp,
    attempt_id: u128,
    scaled_cooldown_ms: u64,
) -> (r: Result<ReportResult, StoreError>)
    requires
        old(store).wf(),
        now.in_range(),
        report_in_reach(old(store)@, *config, req@, now, scaled_cooldown_ms),
    ensures
        final(store).wf(),
        report_outcome(
            old(store)@,
            final(store)@,
            *config,
            req@,
            now,
            attempt_id,
            scaled_cooldown_ms,
            r,
        ),
{
    let event_id = write_uuid(req.event_id);
    let idx = match store.find_event(event_id.as_str()) {
        Some(idx) => idx,
        None => {
            return Err(StoreError::NotFound(copy_text("event not found")));
        },
    };
    let ghost pre = store@;
    let ghost e = pre.events[idx as int];
    assert(store.events[idx as int]@ == e);
    match check_lease(&store.events[idx], req.worker_id.as_str(), now) {
        Some(err) => {
            return Err(err);
        },
        None => {},
    }
    let request_headers = match write_text_map(&req.attempt.request_headers) {
        Ok(text) => text,
        Err(err) => {
            return Err(
                StoreError::Parse(join_text("invalid request headers JSON: ", err.as_str())),
            );
        },
    };
    let response_headers = match &req.attempt.response_headers {
        Some(headers) => match write_text_map(headers) {
            Ok(text) => Some(text),
            Err(err) => {
                return Err(
                    StoreError::Parse(join_text("invalid response headers JSON: ", err.as_str())),
                );
            },
        },
        None => None,
    };
    let error_kind = match req.attempt.error_kind {
        Some(kind) => Some(copy_text(error_kind_to_str(kind))),
        None => None,
    };
    let attempts = store.events[idx].attempts;
    let attempt_no = attempts + 1;
    let endpoint_text = copy_text(store.events[idx].endpoint_id.as_str());
    let endpoint_id = match read_uuid(endpoint_text.as_str()) {
        Ok(id) => id,
        Err(err) => {
            return Err(StoreError::Parse(join_text("invalid endpoint id: ", err.as_str())));
        },
    };
    let exhausted = attempt_no >= config.max_attempts as i64;
    let final_outcome = if exhausted && matches!(req.outcome, ReportOutcome::Retry) {
        ReportOutcome::Dead
    } else {
        req.outcome
    };
    let next_attempt_at = match final_outcome {
        ReportOutcome::Retry => match &req.next_attempt_at {
            Some(value) => match normalize_rfc3339_utc(value.as_str()) {
                Ok(text) => Some(text),
                Err(err) => {
                    return Err(err);
                },
            },
            None => Some(compute_next_attempt_at(now, attempt_no)),
        },
        _ => None,
    };
    let last_error = last_error_for(config, attempts, req.outcome, &req.attempt);
    let status = match final_outcome {
        ReportOutcome::Delivered => WebhookEventStatus::Delivered,
        ReportOutcome::Retry => WebhookEventStatus::Pending,
        ReportOutcome::Dead => WebhookEventStatus::Dead,
    };

    let mut row = store.events[idx].duplicate();
    row.status = copy_text(status.as_str());
    row.attempts = attempt_no;
    row.next_attempt_at = next_attempt_at;
    row.lease_expires_at = None;
    row.leased_by = None;
    row.last_error = last_error;
    assert(row@ == reported_event(e, *config, req@, now));
    store.events.set(idx, row);

    let log = AttemptRow {
        id: write_uuid(attempt_id),
        event_id,
        attempt_no,
        started_at: copy_text(req.attempt.started_at.as_str()),
        finished_at: copy_text(req.attempt.finished_at.as_str()),
        request_headers,
        request_body: copy_text(req.attempt.request_body.as_str()),
        response_status: req.attempt.response_status,
        response_headers,
        response_body: copy_opt_text(&req.attempt.response_body),
        error_kind,
        error_message: copy_opt_text(&req.attempt.error_message),
    };
    assert(log@ == attempt_log_row(e, req@, attempt_id));
    store.attempts.push(log);

    let ghost logged = StoreView {
        events: pre.events.update(idx as int, reported_event(e, *config, req@, now)),
        attempts: pre.attempts.push(attempt_log_row(e, req@, attempt_id)),
        ..pre
    };
    proof {
        assert(store@.events =~= logged.events);
        assert(store@.attempts =~= logged.attempts);
        assert(store@.endpoints =~= logged.endpoints);
        assert(store@.circuits =~= logged.circuits);
        assert(store@ == logged);
        assert(logged.event_ids() =~= pre.event_ids());
        assert(logged.endpoint_ids() =~= pre.endpoint_ids());
        assert(logged.circuit_keys() =~= pre.circuit_keys());
        assert forall|k: int| 0 <= k < logged.events.len() implies position(
            logged.endpoint_ids(),
            (#[trigger] logged.events[k]).endpoint_id,
        ) is Some by {
            assert(pre.events[k].endpoint_id == logged.events[k].endpoint_id);
        }
        assert(logged.wf());
        assert(failures_on_record(logged, e.endpoint_id) == failures_on_record(
            pre,
            e.endpoint_id,
        ));
    }

    let circuit = match final_outcome {
        ReportOutcome::Delivered => {
            proof {
                TargetCircuitStatus::Closed.lemma_text_round_trip();
                TargetCircuitStatus::Open.lemma_text_round_trip();
            }
            if store.reset_circuit(endpoint_text.as_str()) {
                Some(
                    TargetCircuitState {
                        endpoint_id,
                        state: TargetCircuitStatus::Closed,
                        open_until: None,
                        consecutive_failures: 0,
                        last_failure_at: None,
                    },
                )
            } else {
                None
            }
        },
        _ => update_circuit_on_failure(
            store,
            config,
            endpoint_text.as_str(),
            endpoint_id,
            now,
            req.retryable,
            scaled_cooldown_ms,
        ),
    };
    Ok(ReportResult { circuit, final_outcome })
}

} // verus!
