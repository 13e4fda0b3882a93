use std::collections::BTreeMap;

use receiver::dispatcher::DispatcherConfig;
use receiver::error::{ApiError, ApiErrorCode};
use receiver::handlers::dispatcher::{
    lease_handler, map_store_error, parse_rfc3339, report_handler, serve_report,
    validate_report_request, validate_request,
};
use receiver::handlers::inspector::{
    decode_cursor, encode_cursor, get_event_handler, list_attempts_handler, list_events_handler,
    parse_limit, parse_status, parse_uuid, replay_event_handler, ListEventsQuery,
};
use receiver::inspector::InspectorCursor;
use receiver::tables::{EndpointRow, EventRow, Store, StoreError};
use receiver::text::{
    decimal_string, parse_unsigned, str_eq, str_le, str_lt, trim, trim_start,
};
use receiver::time::{format_utc, Timestamp};
use receiver::types::{
    LeaseRequest, ReplayEventRequest, ReportAttempt, ReportOutcome, ReportRequest,
    TargetCircuitStatus, WebhookAttemptErrorKind, WebhookEventStatus,
};

const NOW: Timestamp = Timestamp { secs: 1_700_000_000, nanos: 0 };

fn id_text(id: u128) -> String {
    uuid::Uuid::from_u128(id).to_string()
}

fn invalid(message: &str) -> ApiError {
    ApiError::Validation { message: message.to_string() }
}

fn store_with_events(n: u128) -> Store {
    let mut store = Store::new();
    store.endpoints.push(EndpointRow { id: id_text(0xe0), target_url: "https://t".to_string() });
    for i in 0..n {
        store.events.push(EventRow {
            id: id_text(i + 1),
            endpoint_id: id_text(0xe0),
            replayed_from_event_id: None,
            provider: "stripe".to_string(),
            headers: "{}".to_string(),
            payload: "{}".to_string(),
            status: "pending".to_string(),
            attempts: 0,
            received_at: format!("2023-11-14T22:13:{:02}Z", i),
            next_attempt_at: None,
            lease_expires_at: None,
            leased_by: None,
            last_error: None,
        });
    }
    store
}

fn lease_request(limit: i64, lease_ms: i64, worker_id: &str) -> LeaseRequest {
    LeaseRequest { limit, lease_ms, worker_id: worker_id.to_string() }
}

fn report(worker_id: &str, started_at: &str, finished_at: &str) -> ReportRequest {
    ReportRequest {
        worker_id: worker_id.to_string(),
        event_id: 1,
        outcome: ReportOutcome::Delivered,
        retryable: false,
        next_attempt_at: None,
        attempt: ReportAttempt {
            started_at: started_at.to_string(),
            finished_at: finished_at.to_string(),
            request_headers: BTreeMap::new(),
            request_body: String::new(),
            response_status: None,
            response_headers: None,
            response_body: None,
            error_kind: None,
            error_message: None,
        },
    }
}

#[test]
fn lease_requests_are_checked() {
    assert_eq!(validate_request(&lease_request(1, 1, "w")), Ok(()));
    assert_eq!(validate_request(&lease_request(0, 1, "w")).unwrap_err(), invalid("limit must be > 0"));
    assert_eq!(
        validate_request(&lease_request(1, -5, "w")).unwrap_err(),
        invalid("lease_ms must be > 0")
    );
    assert_eq!(
        validate_request(&lease_request(1, 1, " \t\n")).unwrap_err(),
        invalid("worker_id is required")
    );
    assert_eq!(
        validate_request(&lease_request(0, 0, "")).unwrap_err(),
        invalid("limit must be > 0")
    );
}

#[test]
fn reports_are_checked() {
    let t0 = "2023-11-14T22:13:15Z";
    let t1 = "2023-11-14T22:13:20Z";
    assert_eq!(validate_report_request(&report("w", t0, t1)), Ok(()));
    assert_eq!(validate_report_request(&report("w", t1, t1)), Ok(()));
    assert_eq!(validate_report_request(&report("w", "  2023-11-14T22:13:15Z ", t1)), Ok(()));
    assert_eq!(
        validate_report_request(&report("  ", t0, t1)).unwrap_err(),
        invalid("worker_id is required")
    );
    assert_eq!(
        validate_report_request(&report("w", " ", t1)).unwrap_err(),
        invalid("attempt started_at and finished_at are required")
    );
    assert_eq!(
        validate_report_request(&report("w", t0, "")).unwrap_err(),
        invalid("attempt started_at and finished_at are required")
    );
    assert_eq!(
        validate_report_request(&report("w", "noon", t1)).unwrap_err(),
        invalid("attempt started_at must be RFC3339")
    );
    assert_eq!(
        validate_report_request(&report("w", t0, "later")).unwrap_err(),
        invalid("attempt finished_at must be RFC3339")
    );
    assert_eq!(
        validate_report_request(&report("w", t1, t0)).unwrap_err(),
        invalid("attempt finished_at must be >= started_at")
    );
    assert_eq!(
        validate_report_request(&report("w", "2023-11-14T22:13:20.5Z", t1)).unwrap_err(),
        invalid("attempt finished_at must be >= started_at")
    );
    assert_eq!(validate_report_request(&report("w", "2023-11-15T00:13:15+02:00", t1)), Ok(()));
    let mut with_next = report("w", t0, t1);
    with_next.next_attempt_at = Some(" 2023-11-14T22:13:20Z".to_string());
    assert_eq!(
        validate_report_request(&with_next).unwrap_err(),
        invalid("next_attempt_at must be RFC3339")
    );
    with_next.next_attempt_at = Some("2023-11-14T22:13:20Z".to_string());
    assert_eq!(validate_report_request(&with_next), Ok(()));
}

#[test]
fn timestamps_of_requests_are_read() {
    assert_eq!(
        parse_rfc3339("field", "1970-01-01T00:00:01.5+00:00"),
        Ok(Timestamp { secs: 1, nanos: 500_000_000 })
    );
    assert_eq!(
        parse_rfc3339("field", "1969-12-31T23:00:00-01:00"),
        Ok(Timestamp { secs: 0, nanos: 0 })
    );
    assert_eq!(parse_rfc3339("when", "now").unwrap_err(), invalid("when must be RFC3339"));
    assert_eq!(format_utc(Timestamp { secs: 951_782_399, nanos: 999_999_999 }), "2000-02-28T23:59:59Z");
    assert_eq!(format_utc(Timestamp { secs: -62_167_219_200, nanos: 0 }), "0000-01-01T00:00:00Z");
    assert_eq!(format_utc(Timestamp { secs: 253_402_300_799, nanos: 0 }), "9999-12-31T23:59:59Z");
}

#[test]
fn store_errors_become_api_errors() {
    assert_eq!(
        map_store_error(StoreError::Conflict("lease_expired".to_string())),
        ApiError::Conflict { message: "lease_expired".to_string() }
    );
    assert_eq!(
        map_store_error(StoreError::NotFound("event not found".to_string())),
        ApiError::NotFound { message: "event not found".to_string() }
    );
    assert_eq!(
        map_store_error(StoreError::Parse("bad row".to_string())),
        ApiError::Internal { message: "bad row".to_string() }
    );
    assert_eq!(map_store_error(StoreError::Db("locked".to_string())), ApiError::Db("locked".to_string()));
}

#[test]
fn api_errors_have_a_status_a_code_and_a_message() {
    let parts = |e: ApiError| e.into_response_parts();
    assert_eq!(parts(ApiError::validation("v")), (400, ApiErrorCode::Validation, "v".to_string()));
    assert_eq!(
        parts(ApiError::unauthorized("u")),
        (401, ApiErrorCode::Unauthorized, "u".to_string())
    );
    assert_eq!(
        parts(ApiError::rate_limited("r")),
        (429, ApiErrorCode::RateLimited, "r".to_string())
    );
    assert_eq!(parts(ApiError::not_found("n")), (404, ApiErrorCode::NotFound, "n".to_string()));
    assert_eq!(parts(ApiError::conflict("c")), (409, ApiErrorCode::Conflict, "c".to_string()));
    assert_eq!(parts(ApiError::internal("i")), (500, ApiErrorCode::Internal, "i".to_string()));
    assert_eq!(
        parts(ApiError::Db("disk is full".to_string())),
        (500, ApiErrorCode::Database, "database error".to_string())
    );
    let (status, body) = ApiError::conflict("lease_active").into_response();
    assert_eq!(status, 409);
    assert_eq!(body.code, ApiErrorCode::Conflict);
    assert_eq!(body.message, "lease_active");
}

#[test]
fn lease_handler_checks_then_leases() {
    let mut store = store_with_events(3);
    let before = store.clone();
    assert_eq!(
        lease_handler(&mut store, &lease_request(0, 1000, "w"), NOW).unwrap_err(),
        invalid("limit must be > 0")
    );
    assert_eq!(store, before);
    let res = lease_handler(&mut store, &lease_request(2, 1000, "w"), NOW).expect("lease");
    let ids: Vec<u128> = res.events.iter().map(|e| e.event.id).collect();
    assert_eq!(ids, vec![1, 2]);
    assert_eq!(res.events[0].lease_expires_at, "2023-11-14T22:13:21Z");
    assert_eq!(res.events[0].event.status, WebhookEventStatus::InFlight);
}

#[test]
fn report_handler_checks_then_reports() {
    let mut store = store_with_events(1);
    let config = DispatcherConfig::default();
    let req = report("w", "2023-11-14T22:13:15Z", "2023-11-14T22:13:20Z");
    assert_eq!(
        report_handler(&mut store, &config, &req, NOW, 9, 0).unwrap_err(),
        ApiError::Conflict { message: "lease_missing".to_string() }
    );
    lease_handler(&mut store, &lease_request(1, 60_000, "w"), NOW).expect("lease");
    let blank = report(" ", "2023-11-14T22:13:15Z", "2023-11-14T22:13:20Z");
    assert_eq!(
        report_handler(&mut store, &config, &blank, NOW, 9, 0).unwrap_err(),
        invalid("worker_id is required")
    );
    let mut failed = req.clone();
    failed.outcome = ReportOutcome::Retry;
    failed.retryable = true;
    failed.attempt.error_kind = Some(WebhookAttemptErrorKind::InvalidResponse);
    let res = report_handler(&mut store, &config, &failed, NOW, 9, 30_000).expect("report");
    assert_eq!(res.final_outcome, ReportOutcome::Retry);
    let circuit = res.circuit.expect("a failure was counted");
    assert_eq!(circuit.state, TargetCircuitStatus::Closed);
    assert_eq!(circuit.consecutive_failures, 1);
    assert_eq!(store.events[0].last_error.as_deref(), Some("invalid_response"));
    assert_eq!(store.events[0].status, "pending");
}

#[test]
fn page_sizes_are_brought_between_one_and_two_hundred() {
    assert_eq!(parse_limit(None), Ok(50));
    assert_eq!(parse_limit(Some(1)), Ok(1));
    assert_eq!(parse_limit(Some(200)), Ok(200));
    assert_eq!(parse_limit(Some(0)), Ok(1));
    assert_eq!(parse_limit(Some(201)), Ok(200));
    assert_eq!(parse_limit(Some(500)), Ok(200));
    assert_eq!(parse_limit(Some(-1)), Ok(1));
    assert_eq!(parse_limit(Some(i64::MIN)), Ok(1));
    assert_eq!(parse_limit(Some(i64::MAX)), Ok(200));
    assert_eq!(parse_limit(Some(199)), Ok(199));
}

#[test]
fn ids_and_statuses_of_queries_are_read() {
    assert_eq!(parse_uuid("event_id", "00000000-0000-0000-0000-00000000002a"), Ok(42));
    assert_eq!(parse_uuid("event_id", "0000000000000000000000000000002A"), Ok(42));
    assert_eq!(parse_uuid("event_id", "42").unwrap_err(), invalid("event_id must be a UUID"));
    assert_eq!(parse_uuid("endpoint_id", "").unwrap_err(), invalid("endpoint_id must be a UUID"));
    assert_eq!(parse_status("pending"), Ok(WebhookEventStatus::Pending));
    assert_eq!(parse_status("in_flight"), Ok(WebhookEventStatus::InFlight));
    assert_eq!(parse_status("requeued"), Ok(WebhookEventStatus::Requeued));
    assert_eq!(parse_status("delivered"), Ok(WebhookEventStatus::Delivered));
    assert_eq!(parse_status("dead"), Ok(WebhookEventStatus::Dead));
    assert_eq!(parse_status("paused"), Ok(WebhookEventStatus::Paused));
    assert_eq!(parse_status("Pending").unwrap_err(), invalid("status is invalid"));
    assert_eq!(parse_status("").unwrap_err(), invalid("status is invalid"));
}

#[test]
fn statuses_kinds_and_states_are_spelled_in_snake_case() {
    for status in [
        WebhookEventStatus::Pending,
        WebhookEventStatus::InFlight,
        WebhookEventStatus::Requeued,
        WebhookEventStatus::Delivered,
        WebhookEventStatus::Dead,
        WebhookEventStatus::Paused,
    ] {
        assert_eq!(WebhookEventStatus::parse(status.as_str()), Some(status));
        assert_eq!(receiver::inspector::store::parse_status(status.as_str()), Ok(status));
        assert_eq!(receiver::dispatcher::lease::parse_status(status.as_str()), Ok(status));
        assert_eq!(receiver::inspector::store::status_to_str(status), status.as_str());
    }
    assert_eq!(WebhookEventStatus::InFlight.as_str(), "in_flight");
    for kind in [
        WebhookAttemptErrorKind::Timeout,
        WebhookAttemptErrorKind::Network,
        WebhookAttemptErrorKind::InvalidResponse,
        WebhookAttemptErrorKind::Unexpected,
    ] {
        assert_eq!(receiver::inspector::store::parse_error_kind(kind.as_str()), Ok(kind));
        assert_eq!(receiver::dispatcher::report::error_kind_to_str(kind), kind.as_str());
    }
    assert_eq!(WebhookAttemptErrorKind::InvalidResponse.as_str(), "invalid_response");
    for state in [TargetCircuitStatus::Closed, TargetCircuitStatus::Open] {
        assert_eq!(receiver::inspector::store::parse_circuit_status(state.as_str()), Ok(state));
        assert_eq!(receiver::dispatcher::lease::parse_circuit_status(state.as_str()), Ok(state));
    }
    assert_eq!(
        receiver::dispatcher::lease::parse_status("shelved").unwrap_err(),
        StoreError::Parse("unknown status: shelved".to_string())
    );
    assert_eq!(
        receiver::dispatcher::lease::parse_circuit_status("ajar").unwrap_err(),
        StoreError::Parse("unknown circuit status: ajar".to_string())
    );
    assert_eq!(
        receiver::inspector::store::parse_error_kind("cosmic").unwrap_err(),
        StoreError::Parse("unknown error kind: cosmic".to_string())
    );
}

#[test]
fn cursors_are_base64_of_json() {
    let cursor = InspectorCursor { received_at: "2023-11-14T22:13:20Z".to_string(), id: 42 };
    let token = encode_cursor(&cursor).expect("encode");
    assert_eq!(
        token,
        "eyJyZWNlaXZlZF9hdCI6IjIwMjMtMTEtMTRUMjI6MTM6MjBaIiwiaWQiOiIwMDAwMDAwMC0wMDAwLTAwMDAtMDAwMC0wMDAwMDAwMDAwMmEifQ"
    );
    assert_eq!(decode_cursor(&token), Ok(cursor));
}

#[test]
fn cursors_that_are_not_cursors_are_refused() {
    let refused = invalid("before must be a valid cursor");
    assert_eq!(decode_cursor("***").unwrap_err(), refused);
    // "hello"
    assert_eq!(decode_cursor("aGVsbG8").unwrap_err(), refused);
    // {"received_at":"2023-11-14T22:13:20Z"}
    assert_eq!(
        decode_cursor("eyJyZWNlaXZlZF9hdCI6IjIwMjMtMTEtMTRUMjI6MTM6MjBaIn0").unwrap_err(),
        refused
    );
    // {"received_at":"noon","id":"00000000-0000-0000-0000-00000000002a"}
    assert_eq!(
        decode_cursor(
            "eyJyZWNlaXZlZF9hdCI6Im5vb24iLCJpZCI6IjAwMDAwMDAwLTAwMDAtMDAwMC0wMDAwLTAwMDAwMDAwMDAyYSJ9"
        )
        .unwrap_err(),
        refused
    );
    // {"received_at":"2023-11-14T22:13:20Z","id":"forty-two"}
    assert_eq!(
        decode_cursor("eyJyZWNlaXZlZF9hdCI6IjIwMjMtMTEtMTRUMjI6MTM6MjBaIiwiaWQiOiJmb3J0eS10d28ifQ")
            .unwrap_err(),
        refused
    );
    // with padding, which this encoding does not use
    assert_eq!(decode_cursor("aGVsbG8=").unwrap_err(), refused);
}

fn query() -> ListEventsQuery {
    ListEventsQuery { limit: None, before: None, status: None, endpoint_id: None, provider: None }
}

#[test]
fn listing_handler_pages_through_with_tokens() {
    let store = store_with_events(5);
    let first = list_events_handler(&store, &ListEventsQuery { limit: Some(2), ..query() })
        .expect("first page");
    let ids: Vec<u128> = first.events.iter().map(|e| e.event.id).collect();
    assert_eq!(ids, vec![5, 4]);
    let token = first.next_before.expect("a token");
    let second = list_events_handler(
        &store,
        &ListEventsQuery { limit: Some(2), before: Some(token), ..query() },
    )
    .expect("second page");
    let ids: Vec<u128> = second.events.iter().map(|e| e.event.id).collect();
    assert_eq!(ids, vec![3, 2]);
    let third = list_events_handler(
        &store,
        &ListEventsQuery { limit: Some(2), before: second.next_before, ..query() },
    )
    .expect("third page");
    let ids: Vec<u128> = third.events.iter().map(|e| e.event.id).collect();
    assert_eq!(ids, vec![1]);
    assert_eq!(third.next_before, None);
}

#[test]
fn listing_handler_checks_the_query_in_order() {
    let store = store_with_events(2);
    let bad = ListEventsQuery {
        limit: Some(0),
        before: Some("?".to_string()),
        status: Some("?".to_string()),
        endpoint_id: Some("?".to_string()),
        provider: Some(" ".to_string()),
    };
    assert_eq!(list_events_handler(&store, &bad).unwrap_err(), invalid("before must be a valid cursor"));
    let bad = ListEventsQuery { before: None, ..bad };
    assert_eq!(list_events_handler(&store, &bad).unwrap_err(), invalid("status is invalid"));
    let bad = ListEventsQuery { status: Some("pending".to_string()), ..bad };
    assert_eq!(list_events_handler(&store, &bad).unwrap_err(), invalid("endpoint_id must be a UUID"));
    let bad = ListEventsQuery { endpoint_id: Some(id_text(0xe0)), ..bad };
    assert_eq!(list_events_handler(&store, &bad).unwrap_err(), invalid("provider must be non-empty"));
    let good = ListEventsQuery { provider: Some("  stripe ".to_string()), ..bad };
    let page = list_events_handler(&store, &good).expect("a page");
    assert_eq!(page.events.len(), 1);
    assert_eq!(page.events[0].event.id, 2);
    assert!(page.next_before.is_some());
}

#[test]
fn event_handlers_read_the_id_from_the_path() {
    let mut store = store_with_events(1);
    assert_eq!(get_event_handler(&store, "one").unwrap_err(), invalid("event_id must be a UUID"));
    assert_eq!(
        get_event_handler(&store, &id_text(2)).unwrap_err(),
        ApiError::NotFound { message: "event not found".to_string() }
    );
    assert_eq!(get_event_handler(&store, &id_text(1)).expect("event").event.id, 1);
    assert_eq!(list_attempts_handler(&store, "one").unwrap_err(), invalid("event_id must be a UUID"));
    assert!(list_attempts_handler(&store, &id_text(1)).expect("attempts").attempts.is_empty());
    assert_eq!(
        list_attempts_handler(&store, &id_text(2)).unwrap_err(),
        ApiError::NotFound { message: "event not found".to_string() }
    );
    let no_reset = ReplayEventRequest::default();
    assert_eq!(no_reset.reset_circuit, None);
    assert_eq!(
        replay_event_handler(&mut store, "one", &no_reset, NOW, 7).unwrap_err(),
        invalid("event_id must be a UUID")
    );
    let res = replay_event_handler(&mut store, &id_text(1), &no_reset, NOW, 7).expect("replay");
    assert_eq!(res.event.id, 7);
    assert_eq!(res.event.replayed_from_event_id, Some(1));
    assert_eq!(store.events.len(), 2);
}

#[test]
fn settings_are_read_with_defaults() {
    let defaults = DispatcherConfig::default();
    assert_eq!(
        defaults,
        DispatcherConfig {
            circuit_failure_threshold: 3,
            circuit_cooldown_base_ms: 30_000,
            circuit_cooldown_max_ms: 600_000,
            max_attempts: 5,
        }
    );
    assert_eq!(DispatcherConfig::from_env(None, None, None, None), defaults);
    assert_eq!(
        DispatcherConfig::from_env(Some("7"), Some("100"), Some("+2000"), Some("9")),
        DispatcherConfig {
            circuit_failure_threshold: 7,
            circuit_cooldown_base_ms: 100,
            circuit_cooldown_max_ms: 2000,
            max_attempts: 9,
        }
    );
    assert_eq!(
        DispatcherConfig::from_env(Some("0"), Some("0"), Some("0"), Some("0")),
        DispatcherConfig {
            circuit_failure_threshold: 1,
            circuit_cooldown_base_ms: 0,
            circuit_cooldown_max_ms: 0,
            max_attempts: 1,
        }
    );
    assert_eq!(
        DispatcherConfig::from_env(Some("-1"), Some(" 5"), Some("1e3"), Some("4294967296")),
        defaults
    );
    assert_eq!(
        DispatcherConfig::from_env(None, Some("18446744073709551615"), Some(""), Some("4294967295")),
        DispatcherConfig {
            circuit_cooldown_base_ms: u64::MAX,
            max_attempts: u32::MAX,
            ..defaults
        }
    );
}

#[test]
fn numbers_are_read_and_written_in_decimal() {
    assert_eq!(parse_unsigned("0", 10), Some(0));
    assert_eq!(parse_unsigned("007", 10), Some(7));
    assert_eq!(parse_unsigned("+10", 10), Some(10));
    assert_eq!(parse_unsigned("11", 10), None);
    assert_eq!(parse_unsigned("", 10), None);
    assert_eq!(parse_unsigned("+", 10), None);
    assert_eq!(parse_unsigned("-1", 10), None);
    assert_eq!(parse_unsigned("1 ", 10), None);
    assert_eq!(parse_unsigned("18446744073709551615", u64::MAX), Some(u64::MAX));
    assert_eq!(parse_unsigned("18446744073709551616", u64::MAX), None);
    assert_eq!(parse_unsigned("99999999999999999999999", u64::MAX), None);
    assert_eq!(decimal_string(0), "0");
    assert_eq!(decimal_string(5), "5");
    assert_eq!(decimal_string(4_294_967_295), "4294967295");
    assert_eq!(decimal_string(u64::MAX), "18446744073709551615");
}

#[test]
fn text_compares_byte_by_byte_and_trims_white_space() {
    assert!(str_le("", ""));
    assert!(str_le("", "a"));
    assert!(!str_le("a", ""));
    assert!(str_le("2023-11-14T22:13:20.5+00:00", "2023-11-14T22:13:20Z"));
    assert!(str_lt("2023-11-14T22:13:19Z", "2023-11-14T22:13:20Z"));
    assert!(!str_lt("same", "same"));
    assert!(str_le("same", "same"));
    assert!(str_lt("Z", "\u{e9}"));
    assert!(str_lt("\u{e9}", "\u{4e2d}"));
    assert!(str_eq("caf\u{e9}", "caf\u{e9}"));
    assert!(!str_eq("cafe", "caf\u{e9}"));
    assert_eq!(trim(" \t x y \u{3000}\n"), "x y");
    assert_eq!(trim("\u{2003}"), "");
    assert_eq!(trim(""), "");
    assert_eq!(trim("x"), "x");
    assert_eq!(trim_start("\r\n x "), "x ");
    assert_eq!(trim("\u{200b}x"), "\u{200b}x");
}

#[test]
fn listing_handler_clamps_the_page_size() {
    let store = store_with_events(5);
    let huge = list_events_handler(&store, &ListEventsQuery { limit: Some(500), ..query() })
        .expect("a page");
    assert_eq!(huge.events.len(), 5);
    assert_eq!(huge.next_before, None);
    let none = list_events_handler(&store, &ListEventsQuery { limit: Some(0), ..query() })
        .expect("a page");
    assert_eq!(none.events.len(), 1);
    assert_eq!(none.events[0].event.id, 5);
    assert!(none.next_before.is_some());
    let negative = list_events_handler(&store, &ListEventsQuery { limit: Some(-7), ..query() })
        .expect("a page");
    assert_eq!(negative.events.len(), 1);
    let default = list_events_handler(&store, &query()).expect("a page");
    assert_eq!(default.events.len(), 5);
}

#[test]
fn a_report_out_of_reach_is_not_served() {
    let mut store = store_with_events(1);
    let config = DispatcherConfig::default();
    lease_handler(&mut store, &lease_request(1, 60_000, "w"), NOW).expect("lease");
    let mut req = report("w", "2023-11-14T22:13:15Z", "2023-11-14T22:13:20Z");
    req.outcome = ReportOutcome::Retry;
    req.retryable = true;

    store.events[0].attempts = i64::MAX;
    let before = store.clone();
    assert_eq!(serve_report(&mut store, &config, &req, NOW, 9, 30_000), None);
    assert_eq!(store, before);

    store.events[0].attempts = 0;
    let far = Timestamp { secs: 253_402_300_800, nanos: 0 };
    assert_eq!(serve_report(&mut store, &config, &req, far, 9, 30_000), None);

    store.events[0].attempts = i64::MAX;
    let blank = report(" ", "2023-11-14T22:13:15Z", "2023-11-14T22:13:20Z");
    assert_eq!(
        serve_report(&mut store, &config, &blank, NOW, 9, 30_000),
        Some(Err(invalid("worker_id is required")))
    );
    store.events[0].attempts = 0;

    let served = serve_report(&mut store, &config, &req, NOW, 9, 30_000).expect("in reach");
    assert_eq!(served.expect("served").final_outcome, ReportOutcome::Retry);
    assert_eq!(store.events[0].attempts, 1);
}
