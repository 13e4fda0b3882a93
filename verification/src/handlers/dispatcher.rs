use vstd::prelude::*;

use crate::dispatcher::config::DispatcherConfig;
use crate::dispatcher::lease::{lease_events, lease_outcome};
use crate::dispatcher::report::{
    report_fits, report_in_reach,
    report_delivery, report_effect, report_refusal, report_result, ReportResultView,
};
use crate::error::{ApiError, ApiErrorView};
use crate::tables::{Store, StoreError, StoreErrorView, StoreView};
use crate::text::{is_blank, join_text, trim, trimmed};
use crate::time::{instant_le, parse_instant, rfc3339_instant, Timestamp};
use crate::types::dispatcher::{LeasedEvent, ReportRequestView};
use crate::types::target_circuit_state::circuit_view;
use crate::types::{LeaseRequest, LeaseResponse, ReportRequest, ReportResponse};

verus! {

/// What is wrong with a lease request, if anything: the limit and the lease
/// time must be positive, and the worker must have a name.
pub open spec fn lease_request_fault(limit: i64, lease_ms: i64, worker_id: Seq<char>) -> Option<
    Seq<char>,
> {
    if limit <= 0 {
        Some("limit must be > 0"@)
    } else if lease_ms <= 0 {
        Some("lease_ms must be > 0"@)
    } else if is_blank(worker_id) {
        Some("worker_id is required"@)
    } else {
        None
    }
}

/// Checks a lease request.
pub fn validate_request(req: &LeaseRequest) -> (r: Result<(), ApiError>)
    ensures
        match lease_request_fault(req.limit, req.lease_ms, req.worker_id@) {
            Some(m) => r matches Err(e) && e@ == (ApiErrorView::Validation { message: m }),
            None => r is Ok,
        },
{
    if req.limit <= 0 {
        return Err(ApiError::validation("limit must be > 0"));
    }
    if req.lease_ms <= 0 {
        return Err(ApiError::validation("lease_ms must be > 0"));
    }
    if trim(req.worker_id.as_str()).unicode_len() == 0 {
        return Err(ApiError::validation("worker_id is required"));
    }
    Ok(())
}

/// The instant that a field of a request names, or the fault to report.
pub open spec fn field_instant(field: Seq<char>, value: Seq<char>) -> Result<(int, int), Seq<char>> {
    match rfc3339_instant(value) {
        Ok(at) => Ok(at),
        Err(_) => Err(field + " must be RFC3339"@),
    }
}

/// Reads a timestamp of a request.
pub fn parse_rfc3339(field: &str, value: &str) -> (r: Result<Timestamp, ApiError>)
    ensures
        match r {
            Ok(t) => field_instant(field@, value@) == Ok::<(int, int), Seq<char>>(
                (t.secs as int, t.nanos as int),
            ),
            Err(e) => field_instant(field@, value@) matches Err(m) && e@ == (
            ApiErrorView::Validation { message: m }),
        },
{
    match parse_instant(value) {
        Ok(t) => Ok(t),
        Err(_) => Err(ApiError::Validation { message: join_text(field, " must be RFC3339") }),
    }
}

/// What is wrong with a report, if anything: the worker must have a name,
/// the attempt must say when it started and finished, in RFC 3339, and must
/// not finish before it starts, and the time of the next attempt, where one
/// is named, must be RFC 3339 too.
pub open spec fn report_request_fault(req: ReportRequestView) -> Option<Seq<char>> {
    if is_blank(req.worker_id) {
        Some("worker_id is required"@)
    } else if is_blank(req.attempt.started_at) || is_blank(req.attempt.finished_at) {
        Some("attempt started_at and finished_at are required"@)
    } else {
        match field_instant("attempt started_at"@, trimmed(req.attempt.started_at)) {
            Err(m) => Some(m),
            Ok(started) => match field_instant(
                "attempt finished_at"@,
                trimmed(req.attempt.finished_at),
            ) {
                Err(m) => Some(m),
                Ok(finished) => if finished != started && instant_le(
                    finished.0,
                    finished.1,
                    Timestamp { secs: started.0 as i64, nanos: started.1 as u32 },
                ) {
                    Some("attempt finished_at must be >= started_at"@)
                } else {
                    match req.next_attempt_at {
                        Some(value) => match field_instant("next_attempt_at"@, value) {
                            Err(m) => Some(m),
                            Ok(_) => None,
                        },
                        None => None,
                    }
                },
            },
        }
    }
}

/// Checks a report.
pub fn validate_report_request(req: &ReportRequest) -> (r: Result<(), ApiError>)
    ensures
        match report_request_fault(req@) {
            Some(m) => r matches Err(e) && e@ == (ApiErrorView::Validation { message: m }),
            None => r is Ok,
        },
{
    if trim(req.worker_id.as_str()).unicode_len() == 0 {
        return Err(ApiError::validation("worker_id is required"));
    }
    let started_at_raw = trim(req.attempt.started_at.as_str());
    let finished_at_raw = trim(req.attempt.finished_at.as_str());
    if started_at_raw.unicode_len() == 0 || finished_at_raw.unicode_len() == 0 {
        return Err(ApiError::validation("attempt started_at and finished_at are required"));
    }
    let started_at = match parse_rfc3339("attempt started_at", started_at_raw) {
        Ok(t) => t,
        Err(e) => {
            return Err(e);
        },
    };
    let finished_at = match parse_rfc3339("attempt finished_at", finished_at_raw) {
        Ok(t) => t,
        Err(e) => {
            return Err(e);
        },
    };
    if finished_at.at_or_before(&started_at) && !started_at.at_or_before(&finished_at) {
        return Err(ApiError::validation("attempt finished_at must be >= started_at"));
    }
    if let Some(value) = &req.next_attempt_at {
        match parse_rfc3339("next_attempt_at", value.as_str()) {
            Ok(_) => {},
            Err(e) => {
                return Err(e);
            },
        }
    }
    Ok(())
}

/// The error the transport answers a store error with.
pub open spec fn api_error_of(err: StoreErrorView) -> ApiErrorView {
    match err {
        StoreErrorView::Conflict(message) => ApiErrorView::Conflict { message },
        StoreErrorView::Db(message) => ApiErrorView::Db(message),
        StoreErrorView::NotFound(message) => ApiErrorView::NotFound { message },
        StoreErrorView::Parse(message) => ApiErrorView::Internal { message },
    }
}

/// Turns a store error into the error the transport answers with.
pub fn map_store_error(err: StoreError) -> (r: ApiError)
    ensures
        r@ == api_error_of(err@),
{
    match err {
        StoreError::Conflict(message) => ApiError::Conflict { message },
        StoreError::Db(message) => ApiError::Db(message),
        StoreError::NotFound(message) => ApiError::NotFound { message },
        StoreError::Parse(message) => ApiError::Internal { message },
    }
}

/// The answer `r` is the store's answer `inner`, an error turned into the
/// transport's.
pub open spec fn lease_answer(inner: Result<Vec<LeasedEvent>, StoreError>, r: Result<
    LeaseResponse,
    ApiError,
>) -> bool {
    match inner {
        Ok(events) => r matches Ok(res) && res.events == events,
        Err(err) => r matches Err(e) && e@ == api_error_of(err@),
    }
}

/// Serves a lease request at `now`: a request that is not valid is answered
/// with its fault and leaves the store alone; a valid one is handed to
/// `lease_events`.
pub fn lease_handler(store: &mut Store, req: &LeaseRequest, now: Timestamp) -> (r: Result<
    LeaseResponse,
    ApiError,
>)
    requires
        old(store).wf(),
        req.lease_ms > 0 ==> now.can_add_millis(req.lease_ms as int),
    ensures
        final(store).wf(),
        match lease_request_fault(req.limit, req.lease_ms, req.worker_id@) {
            Some(m) => r matches Err(e) && e@ == (ApiErrorView::Validation { message: m })
                && final(store)@ == old(store)@,
            None => exists|picks: Seq<int>, inner: Result<Vec<LeasedEvent>, StoreError>|
                #![trigger lease_outcome(
                    old(store)@,
                    req.worker_id@,
                    req.limit as int,
                    now.text(),
                    now.add_millis(req.lease_ms as int).text(),
                    picks,
                    final(store)@,
                    inner,
                )]
                lease_outcome(
                    old(store)@,
                    req.worker_id@,
                    req.limit as int,
                    now.text(),
                    now.add_millis(req.lease_ms as int).text(),
                    picks,
                    final(store)@,
                    inner,
                ) && lease_answer(inner, r),
        },
{
    match validate_request(req) {
        Ok(_) => {},
        Err(e) => {
            return Err(e);
        },
    }
    let inner = lease_events(store, req, now);
    let ghost kept = inner;
    let r = match inner {
        Ok(events) => Ok(LeaseResponse { events }),
        Err(err) => Err(map_store_error(err)),
    };
    assert(lease_answer(kept, r));
    r
}

/// What serving a report comes to: the fault of a report that is not valid,
/// the refusal of one that is turned away, both with the store left as it
/// was, or what `report_delivery` did and handed back.
pub open spec fn report_served(
    pre: StoreView,
    post: StoreView,
    config: DispatcherConfig,
    req: ReportRequestView,
    now: Timestamp,
    attempt_id: u128,
    scaled_ms: u64,
    r: Result<ReportResponse, ApiError>,
) -> bool {
    match report_request_fault(req) {
        Some(m) => r matches Err(e) && e@ == (ApiErrorView::Validation { message: m }) && post
            == pre,
        None => match report_refusal(pre, config, req, now) {
            Some(err) => r matches Err(e) && e@ == api_error_of(err) && post == pre,
            None => r matches Ok(res) && post == report_effect(
                pre,
                config,
                req,
                now,
                attempt_id,
                scaled_ms,
            ) && (ReportResultView {
                circuit: circuit_view(res.circuit),
                final_outcome: res.final_outcome,
            }) == report_result(pre, config, req, now, scaled_ms),
        },
    }
}

/// Serves a report at `now`: a report that is not valid is answered with its
/// fault and leaves the store alone; a valid one is handed to
/// `report_delivery`, whose refusals are answered as the transport's errors.
pub fn report_handler(
    store: &mut Store,
    config: &DispatcherConfig,
    req: &ReportRequest,
    now: Timestamp,
    attempt_id: u128,
    scaled_cooldown_ms: u64,
) -> (r: Result<ReportResponse, ApiError>)
    requires
        old(store).wf(),
        now.in_range(),
        report_request_fault(req@) is None ==> report_in_reach(
            old(store)@,
            *config,
            req@,
            now,
            scaled_cooldown_ms,
        ),
    ensures
        final(store).wf(),
        report_served(
            old(store)@,
            final(store)@,
            *config,
            req@,
            now,
            attempt_id,
            scaled_cooldown_ms,
            r,
        ),
{
    match validate_report_request(req) {
        Ok(_) => {},
        Err(e) => {
            return Err(e);
        },
    }
    match report_delivery(store, config, req, now, attempt_id, scaled_cooldown_ms) {
        Ok(result) => Ok(
            ReportResponse { circuit: result.circuit, final_outcome: result.final_outcome },
        ),
        Err(err) => Err(map_store_error(err)),
    }
}

/// Serves a report at `now` if the report is in reach of the clock and the
/// counters, and says so with `Some`. One that is out of reach is not served:
/// the answer is `None` and the store is left as it was. A report that is not
/// valid is always in reach: it is answered with its fault.
pub fn serve_report(
    store: &mut Store,
    config: &DispatcherConfig,
    req: &ReportRequest,
    now: Timestamp,
    attempt_id: u128,
    scaled_cooldown_ms: u64,
) -> (r: Option<Result<ReportResponse, ApiError>>)
    requires
        old(store).wf(),
    ensures
        final(store).wf(),
        r is Some <==> now.in_range() && (report_request_fault(req@) is None ==> report_in_reach(
            old(store)@,
            *config,
            req@,
            now,
            scaled_cooldown_ms,
        )),
        match r {
            Some(answer) => report_served(
                old(store)@,
                final(store)@,
                *config,
                req@,
                now,
                attempt_id,
                scaled_cooldown_ms,
                answer,
            ),
            None => final(store)@ == old(store)@,
        },
{
    if !now.is_in_range() {
        return None;
    }
    match validate_report_request(req) {
        Ok(_) => {},
        Err(e) => {
            return Some(Err(e));
        },
    }
    if !report_fits(store, config, req, now, scaled_cooldown_ms) {
        return None;
    }
    Some(report_handler(store, config, req, now, attempt_id, scaled_cooldown_ms))
}

} // verus!
