use std::collections::{BTreeMap, HashSet};

use receiver::dispatcher::circuit::{
    compute_cooldown_ms, failure_exponent, failure_fits, update_circuit_on_failure,
};
use receiver::dispatcher::report::{compute_next_attempt_at, normalize_rfc3339_utc, report_fits};
use receiver::dispatcher::{lease_events, report_delivery, DispatcherConfig, StoreError};
use receiver::tables::{CircuitRow, EndpointRow, EventRow, Store};
use receiver::time::{format_utc, Timestamp};
use receiver::types::{
    LeaseRequest, ReportAttempt, ReportOutcome, ReportRequest, TargetCircuitStatus,
    WebhookAttemptErrorKind, WebhookEventStatus,
};

const NOW: Timestamp = Timestamp { secs: 1_700_000_000, nanos: 0 };
const NOW_TEXT: &str = "2023-11-14T22:13:20Z";
const HOUR_AGO: &str = "2023-11-14T21:13:20+00:00";
const IN_AN_HOUR: &str = "2023-11-14T23:13:20+00:00";
const ENDPOINT: u128 = 0xe0;

fn id_text(id: u128) -> String {
    uuid::Uuid::from_u128(id).to_string()
}

fn seed_endpoint(store: &mut Store) -> u128 {
    store.endpoints.push(EndpointRow {
        id: id_text(ENDPOINT),
        target_url: "https://example.com/webhook".to_string(),
    });
    ENDPOINT
}

fn seed_event_with_attempts(
    store: &mut Store,
    id: u128,
    endpoint_id: u128,
    status: &str,
    next_attempt_at: Option<&str>,
    lease_expires_at: Option<&str>,
    leased_by: Option<&str>,
    attempts: i64,
) -> u128 {
    store.events.push(EventRow {
        id: id_text(id),
        endpoint_id: id_text(endpoint_id),
        replayed_from_event_id: None,
        provider: "stripe".to_string(),
        headers: "{}".to_string(),
        payload: "{}".to_string(),
        status: status.to_string(),
        attempts,
        received_at: format!("2023-11-14T22:00:{:02}+00:00", id % 60),
        next_attempt_at: next_attempt_at.map(str::to_string),
        lease_expires_at: lease_expires_at.map(str::to_string),
        leased_by: leased_by.map(str::to_string),
        last_error: None,
    });
    id
}

fn seed_event(
    store: &mut Store,
    id: u128,
    endpoint_id: u128,
    status: &str,
    next_attempt_at: Option<&str>,
    lease_expires_at: Option<&str>,
    leased_by: Option<&str>,
) -> u128 {
    seed_event_with_attempts(
        store,
        id,
        endpoint_id,
        status,
        next_attempt_at,
        lease_expires_at,
        leased_by,
        0,
    )
}

fn seed_circuit_state(store: &mut Store, endpoint_id: u128, state: &str, open_until: Option<&str>) {
    store.circuits.push(CircuitRow {
        endpoint_id: id_text(endpoint_id),
        state: state.to_string(),
        open_until: open_until.map(str::to_string),
        consecutive_failures: 0,
        last_failure_at: None,
    });
}

fn lease_request(limit: i64, worker_id: &str) -> LeaseRequest {
    LeaseRequest { limit, lease_ms: 30_000, worker_id: worker_id.to_string() }
}

fn attempt(status: i64, error_message: Option<&str>) -> ReportAttempt {
    ReportAttempt {
        started_at: "2023-11-14T22:13:15+00:00".to_string(),
        finished_at: "2023-11-14T22:13:20+00:00".to_string(),
        request_headers: BTreeMap::new(),
        request_body: r#"{"test":"payload"}"#.to_string(),
        response_status: Some(status),
        response_headers: None,
        response_body: None,
        error_kind: None,
        error_message: error_message.map(str::to_string),
    }
}

fn report_request(
    worker_id: &str,
    event_id: u128,
    outcome: ReportOutcome,
    attempt: ReportAttempt,
) -> ReportRequest {
    ReportRequest {
        worker_id: worker_id.to_string(),
        event_id,
        outcome,
        retryable: true,
        next_attempt_at: None,
        attempt,
    }
}

fn event<'a>(store: &'a Store, id: u128) -> &'a EventRow {
    let text = id_text(id);
    store.events.iter().find(|e| e.id == text).expect("event should exist")
}

#[test]
fn lease_eligibility_filter() {
    let mut store = Store::new();
    let endpoint_id = seed_endpoint(&mut store);
    let eligible_pending = seed_event(&mut store, 1, endpoint_id, "pending", None, None, None);
    let eligible_requeued =
        seed_event(&mut store, 2, endpoint_id, "requeued", Some(HOUR_AGO), None, None);
    let _ineligible_future =
        seed_event(&mut store, 3, endpoint_id, "pending", Some(IN_AN_HOUR), None, None);
    let _ineligible_in_flight = seed_event(
        &mut store,
        4,
        endpoint_id,
        "in_flight",
        None,
        Some(IN_AN_HOUR),
        Some("other-worker"),
    );

    let req = LeaseRequest { limit: 50, lease_ms: 30_000, worker_id: "worker-1".to_string() };
    let events = lease_events(&mut store, &req, NOW).expect("lease events");

    let returned_ids: HashSet<u128> = events.iter().map(|event| event.event.id).collect();
    let expected_ids: HashSet<u128> = [eligible_pending, eligible_requeued].into_iter().collect();
    assert_eq!(returned_ids, expected_ids);

    for leased in events {
        assert_eq!(leased.event.status, WebhookEventStatus::InFlight);
        assert_eq!(leased.event.leased_by.as_deref(), Some("worker-1"));
        assert!(leased.event.lease_expires_at.is_some());
    }
    assert_eq!(event(&store, 1).status, "in_flight");
    assert_eq!(event(&store, 2).leased_by.as_deref(), Some("worker-1"));
    assert_eq!(event(&store, 3).status, "pending");
    assert_eq!(event(&store, 4).leased_by.as_deref(), Some("other-worker"));
}

#[test]
fn target_url_join() {
    let mut store = Store::new();
    let endpoint_id: u128 = 0xabc;
    let known_target_url = "https://custom-target.example.com/hooks";
    store.endpoints.push(EndpointRow {
        id: id_text(endpoint_id),
        target_url: known_target_url.to_string(),
    });
    let _event_id = seed_event(&mut store, 1, endpoint_id, "pending", None, None, None);

    let req = LeaseRequest { limit: 10, lease_ms: 30_000, worker_id: "worker-1".to_string() };
    let events = lease_events(&mut store, &req, NOW).expect("lease events");

    assert_eq!(events.len(), 1, "should lease exactly one event");
    assert_eq!(
        events[0].target_url, known_target_url,
        "leased event should include correct target_url from endpoints table"
    );
}

#[test]
fn expired_lease_recovery() {
    let mut store = Store::new();
    let endpoint_id = seed_endpoint(&mut store);
    let expired_id = seed_event(
        &mut store,
        1,
        endpoint_id,
        "in_flight",
        None,
        Some(HOUR_AGO),
        Some("worker-old"),
    );

    let req = LeaseRequest { limit: 10, lease_ms: 30_000, worker_id: "worker-new".to_string() };
    let events = lease_events(&mut store, &req, NOW).expect("lease events");

    assert_eq!(events.len(), 1);
    let leased = &events[0];
    assert_eq!(leased.event.id, expired_id);
    assert_eq!(leased.event.status, WebhookEventStatus::InFlight);
    assert_eq!(leased.event.leased_by.as_deref(), Some("worker-new"));

    let new_lease_expires_at =
        leased.event.lease_expires_at.as_deref().expect("lease_expires_at set");
    assert_ne!(new_lease_expires_at, HOUR_AGO);
    assert_eq!(new_lease_expires_at, "2023-11-14T22:13:50Z");
    assert_eq!(leased.lease_expires_at, "2023-11-14T22:13:50Z");
}

#[test]
fn lease_exclusivity_no_duplicate_leases() {
    let mut store = Store::new();
    let endpoint_id = seed_endpoint(&mut store);
    let total_events = 10;
    for n in 0..total_events {
        seed_event(&mut store, 100 + n, endpoint_id, "pending", Some(NOW_TEXT), None, None);
    }

    let req_a = lease_request(6, "worker-a");
    let req_b = lease_request(6, "worker-b");
    let events_a = lease_events(&mut store, &req_a, NOW).expect("lease events a");
    let events_b = lease_events(&mut store, &req_b, NOW).expect("lease events b");

    let ids_a: HashSet<u128> = events_a.iter().map(|event| event.event.id).collect();
    let ids_b: HashSet<u128> = events_b.iter().map(|event| event.event.id).collect();
    let combined: HashSet<u128> = ids_a.union(&ids_b).copied().collect();
    let combined_len = combined.len();
    let total_returned = events_a.len() + events_b.len();

    assert_eq!(combined_len, total_returned, "duplicate leases detected across concurrent calls");
    let expected_max = std::cmp::min(total_events as usize, req_a.limit as usize * 2);
    assert_eq!(combined_len, expected_max);
    assert_eq!(events_a.len(), 6);
    assert_eq!(events_b.len(), 4);
}

#[test]
fn circuit_gating() {
    let mut store = Store::new();
    let endpoint_id = seed_endpoint(&mut store);
    let event_id = seed_event(&mut store, 1, endpoint_id, "pending", None, None, None);
    seed_circuit_state(&mut store, endpoint_id, "open", Some(IN_AN_HOUR));

    let req = LeaseRequest { limit: 50, lease_ms: 30_000, worker_id: "worker-1".to_string() };
    let events = lease_events(&mut store, &req, NOW).expect("lease events");
    assert!(events.is_empty(), "no events should be leased when circuit is open");
    assert_eq!(store.circuits[0].state, "open");

    store.circuits[0].open_until = Some("2023-11-14T22:13:19+00:00".to_string());
    let events = lease_events(&mut store, &req, NOW).expect("lease events second call");

    assert_eq!(events.len(), 1, "event should be leased when circuit is closed");
    let leased = &events[0];
    assert_eq!(leased.event.id, event_id);
    assert_eq!(leased.event.status, WebhookEventStatus::InFlight);
    assert_eq!(leased.event.leased_by.as_deref(), Some("worker-1"), "event should be leased by worker-1");
    assert!(leased.event.lease_expires_at.is_some(), "lease_expires_at should be set");
    assert_eq!(
        leased.target_url, "https://example.com/webhook",
        "target_url should be included in lease response"
    );
    assert_eq!(store.circuits[0].state, "closed");
    assert_eq!(store.circuits[0].open_until, None);
    let circuit = leased.circuit.as_ref().expect("circuit present");
    assert_eq!(circuit.state, TargetCircuitStatus::Closed);
    assert_eq!(circuit.endpoint_id, endpoint_id);
}

#[test]
fn lease_hands_out_oldest_first_up_to_the_limit() {
    let mut store = Store::new();
    let endpoint_id = seed_endpoint(&mut store);
    seed_event(&mut store, 30, endpoint_id, "pending", None, None, None);
    seed_event(&mut store, 10, endpoint_id, "pending", None, None, None);
    seed_event(&mut store, 20, endpoint_id, "requeued", None, None, None);
    seed_event(&mut store, 40, endpoint_id, "paused", None, None, None);

    let events = lease_events(&mut store, &lease_request(2, "w"), NOW).expect("lease events");
    let ids: Vec<u128> = events.iter().map(|e| e.event.id).collect();
    assert_eq!(ids, vec![10, 20]);
    assert_eq!(event(&store, 30).status, "pending");
    assert_eq!(event(&store, 40).status, "paused");
}

#[test]
fn lease_reports_an_unreadable_row_and_keeps_the_lease() {
    let mut store = Store::new();
    let endpoint_id = seed_endpoint(&mut store);
    seed_event(&mut store, 1, endpoint_id, "pending", None, None, None);
    store.events[0].headers = "not json".to_string();

    let result = lease_events(&mut store, &lease_request(5, "w"), NOW);
    match result {
        Err(StoreError::Parse(message)) => assert!(message.starts_with("invalid headers JSON: ")),
        other => panic!("expected a parse error, got {:?}", other),
    }
    assert_eq!(store.events[0].status, "in_flight");
}

#[test]
fn report_happy_path_delivered() {
    let mut store = Store::new();
    let endpoint_id = seed_endpoint(&mut store);
    let event_id = seed_event(
        &mut store,
        1,
        endpoint_id,
        "in_flight",
        None,
        Some(IN_AN_HOUR),
        Some("test-worker"),
    );
    seed_circuit_state(&mut store, endpoint_id, "open", Some(IN_AN_HOUR));
    store.circuits[0].consecutive_failures = 4;
    store.events[0].last_error = Some("earlier".to_string());

    let report_req = ReportRequest {
        worker_id: "test-worker".to_string(),
        event_id,
        outcome: ReportOutcome::Delivered,
        retryable: true,
        next_attempt_at: None,
        attempt: ReportAttempt {
            started_at: "2023-11-14T22:13:15+00:00".to_string(),
            finished_at: "2023-11-14T22:13:20+00:00".to_string(),
            request_headers: BTreeMap::new(),
            request_body: r#"{"test":"payload"}"#.to_string(),
            response_status: Some(200),
            response_headers: Some(BTreeMap::from([(
                "content-type".to_string(),
                "application/json".to_string(),
            )])),
            response_body: Some(r#"{"status":"ok"}"#.to_string()),
            error_kind: None,
            error_message: None,
        },
    };

    let config = DispatcherConfig::default();
    let result = report_delivery(&mut store, &config, &report_req, NOW, 0xa1, 30_000);
    assert!(result.is_ok(), "report_delivery should succeed");
    let result = result.unwrap();
    assert_eq!(result.final_outcome, ReportOutcome::Delivered);

    assert_eq!(store.attempts.len(), 1, "attempt log should exist");
    let log = &store.attempts[0];
    assert_eq!(log.id, id_text(0xa1));
    assert_eq!(log.event_id, id_text(event_id));
    assert_eq!(log.attempt_no, 1, "attempt_no should be 1 (first attempt)");
    assert_eq!(log.request_body, r#"{"test":"payload"}"#, "request_body should match sent payload");
    assert_eq!(log.response_status, Some(200), "response_status should be 200");
    assert_eq!(
        log.response_body,
        Some(r#"{"status":"ok"}"#.to_string()),
        "response_body should match sent response"
    );
    assert_eq!(log.request_headers, "{}");
    assert_eq!(log.response_headers.as_deref(), Some(r#"{"content-type":"application/json"}"#));

    let row = event(&store, event_id);
    assert_eq!(row.status, "delivered", "event status should be delivered");
    assert_eq!(row.attempts, 1, "attempts should be incremented to 1");
    assert_eq!(row.endpoint_id, id_text(endpoint_id), "endpoint_id should remain unchanged");
    assert!(row.lease_expires_at.is_none(), "lease_expires_at should be cleared (NULL)");
    assert!(row.leased_by.is_none(), "leased_by should be cleared (NULL)");
    assert!(row.last_error.is_none(), "last_error should be cleared (NULL) on successful delivery");
    assert!(row.next_attempt_at.is_none());

    let circuit = &store.circuits[0];
    assert_eq!(circuit.state, "closed", "circuit should be closed on successful delivery");
    assert!(circuit.open_until.is_none(), "open_until should be NULL");
    assert_eq!(circuit.consecutive_failures, 0, "consecutive_failures should reset to 0 on success");
    assert!(circuit.last_failure_at.is_none());
    let snapshot = result.circuit.expect("circuit was reset");
    assert_eq!(snapshot.state, TargetCircuitStatus::Closed);
    assert_eq!(snapshot.consecutive_failures, 0);
}

#[test]
fn report_delivered_without_a_circuit_row_adds_none() {
    let mut store = Store::new();
    let endpoint_id = seed_endpoint(&mut store);
    seed_event(&mut store, 1, endpoint_id, "in_flight", None, Some(IN_AN_HOUR), Some("w"));
    let req = report_request("w", 1, ReportOutcome::Delivered, attempt(200, None));
    let result = report_delivery(&mut store, &DispatcherConfig::default(), &req, NOW, 2, 0)
        .expect("report should succeed");
    assert!(result.circuit.is_none());
    assert!(store.circuits.is_empty());
}

#[test]
fn report_retry_path() {
    let mut store = Store::new();
    let endpoint_id = seed_endpoint(&mut store);
    let next_attempt_at = "2023-11-15T00:28:20+02:00".to_string();
    let event_id = seed_event(
        &mut store,
        1,
        endpoint_id,
        "in_flight",
        None,
        Some(IN_AN_HOUR),
        Some("test-worker"),
    );

    let report_req = ReportRequest {
        worker_id: "test-worker".to_string(),
        event_id,
        outcome: ReportOutcome::Retry,
        retryable: true,
        next_attempt_at: Some(next_attempt_at.clone()),
        attempt: ReportAttempt {
            started_at: "2023-11-14T22:13:15+00:00".to_string(),
            finished_at: "2023-11-14T22:13:20+00:00".to_string(),
            request_headers: BTreeMap::new(),
            request_body: r#"{"test":"payload"}"#.to_string(),
            response_status: Some(503),
            response_headers: None,
            response_body: Some("Service Unavailable".to_string()),
            error_kind: None,
            error_message: Some("Connection timed out".to_string()),
        },
    };

    let config = DispatcherConfig::default();
    let result = report_delivery(&mut store, &config, &report_req, NOW, 0xa1, 30_000);
    assert!(result.is_ok(), "report_delivery should succeed");
    assert_eq!(result.unwrap().final_outcome, ReportOutcome::Retry);

    let log = &store.attempts[0];
    assert_eq!(log.attempt_no, 1, "attempt_no should be 1");
    assert_eq!(log.request_body, r#"{"test":"payload"}"#);
    assert_eq!(
        log.error_message,
        Some("Connection timed out".to_string()),
        "error_message should be persisted"
    );
    assert_eq!(log.response_headers, None);

    let row = event(&store, event_id);
    assert_eq!(row.status, "pending", "event status should be pending");
    assert_eq!(row.attempts, 1, "attempts should be incremented to 1");
    assert_eq!(
        row.next_attempt_at,
        Some("2023-11-14T22:28:20Z".to_string()),
        "next_attempt_at should be persisted"
    );
    assert!(row.lease_expires_at.is_none(), "lease_expires_at should be cleared");
    assert!(row.leased_by.is_none(), "leased_by should be cleared");
    assert_eq!(row.last_error, Some("Connection timed out".to_string()), "last_error should be set");
}

#[test]
fn report_retry_without_a_time_backs_off() {
    let mut store = Store::new();
    let endpoint_id = seed_endpoint(&mut store);
    seed_event_with_attempts(
        &mut store,
        1,
        endpoint_id,
        "in_flight",
        None,
        Some(IN_AN_HOUR),
        Some("w"),
        2,
    );
    let mut failed = attempt(503, None);
    failed.error_kind = Some(WebhookAttemptErrorKind::Timeout);
    let req = report_request("w", 1, ReportOutcome::Retry, failed);
    report_delivery(&mut store, &DispatcherConfig::default(), &req, NOW, 2, 30_000)
        .expect("report should succeed");
    let row = event(&store, 1);
    assert_eq!(row.next_attempt_at.as_deref(), Some("2023-11-14T22:13:24Z"));
    assert_eq!(row.last_error.as_deref(), Some("timeout"));
    assert_eq!(store.attempts[0].error_kind.as_deref(), Some("timeout"));
    assert_eq!(store.attempts[0].attempt_no, 3);
}

#[test]
fn report_lease_ownership_conflict_wrong_worker() {
    let mut store = Store::new();
    let endpoint_id = seed_endpoint(&mut store);
    let event_id = seed_event(
        &mut store,
        1,
        endpoint_id,
        "in_flight",
        None,
        Some(IN_AN_HOUR),
        Some("original-worker"),
    );
    let before = store.clone();

    let req = report_request("wrong-worker", event_id, ReportOutcome::Delivered, attempt(200, None));
    let result = report_delivery(&mut store, &DispatcherConfig::default(), &req, NOW, 2, 0);
    assert!(
        matches!(result, Err(StoreError::Conflict(ref m)) if m == "lease_not_owned"),
        "report should fail with conflict"
    );
    assert_eq!(store.attempts.len(), 0, "no attempt log should be inserted");
    let row = event(&store, event_id);
    assert_eq!(row.status, "in_flight", "status should be unchanged");
    assert_eq!(row.leased_by.as_deref(), Some("original-worker"), "leased_by should be unchanged");
    assert_eq!(row.lease_expires_at.as_deref(), Some(IN_AN_HOUR), "lease_expires_at should be unchanged");
    assert_eq!(store, before);
}

#[test]
fn report_lease_ownership_conflict_expired_lease() {
    let mut store = Store::new();
    let endpoint_id = seed_endpoint(&mut store);
    let event_id = seed_event(
        &mut store,
        1,
        endpoint_id,
        "in_flight",
        None,
        Some(HOUR_AGO),
        Some("test-worker"),
    );
    let before = store.clone();

    let req = report_request("test-worker", event_id, ReportOutcome::Delivered, attempt(200, None));
    let result = report_delivery(&mut store, &DispatcherConfig::default(), &req, NOW, 2, 0);
    assert!(
        matches!(result, Err(StoreError::Conflict(ref m)) if m == "lease_expired"),
        "report should fail with conflict for expired lease"
    );
    assert_eq!(store.attempts.len(), 0, "no attempt log should be inserted");
    let row = event(&store, event_id);
    assert_eq!(row.status, "in_flight", "status should be unchanged");
    assert_eq!(row.leased_by.as_deref(), Some("test-worker"), "leased_by should be unchanged");
    assert_eq!(row.lease_expires_at.as_deref(), Some(HOUR_AGO), "lease_expires_at should be unchanged");
    assert_eq!(store, before);
}

#[test]
fn report_refusals_come_in_order() {
    let mut store = Store::new();
    let endpoint_id = seed_endpoint(&mut store);
    seed_event(&mut store, 1, endpoint_id, "pending", None, None, None);
    seed_event(&mut store, 2, endpoint_id, "in_flight", None, None, Some("w"));
    seed_event(&mut store, 3, endpoint_id, "in_flight", None, Some("garbled"), Some("w"));
    store.events[2].endpoint_id = "no-uuid".to_string();
    store.endpoints.push(EndpointRow { id: "no-uuid".to_string(), target_url: "u".to_string() });
    let config = DispatcherConfig::default();

    let unknown = report_request("w", 9, ReportOutcome::Delivered, attempt(200, None));
    assert_eq!(
        report_delivery(&mut store, &config, &unknown, NOW, 5, 0).unwrap_err(),
        StoreError::NotFound("event not found".to_string())
    );
    let unleased = report_request("w", 1, ReportOutcome::Delivered, attempt(200, None));
    assert_eq!(
        report_delivery(&mut store, &config, &unleased, NOW, 5, 0).unwrap_err(),
        StoreError::Conflict("lease_missing".to_string())
    );
    let no_expiry = report_request("w", 2, ReportOutcome::Delivered, attempt(200, None));
    assert_eq!(
        report_delivery(&mut store, &config, &no_expiry, NOW, 5, 0).unwrap_err(),
        StoreError::Conflict("lease_missing".to_string())
    );
    let bad_endpoint = report_request("w", 3, ReportOutcome::Delivered, attempt(200, None));
    match report_delivery(&mut store, &config, &bad_endpoint, NOW, 5, 0).unwrap_err() {
        StoreError::Parse(m) => assert!(m.starts_with("invalid endpoint id: "), "{m}"),
        other => panic!("expected a parse error, got {:?}", other),
    }
    assert!(store.attempts.is_empty());
}

#[test]
fn report_rejects_an_unreadable_next_attempt() {
    let mut store = Store::new();
    let endpoint_id = seed_endpoint(&mut store);
    seed_event(&mut store, 1, endpoint_id, "in_flight", None, Some(IN_AN_HOUR), Some("w"));
    let mut req = report_request("w", 1, ReportOutcome::Retry, attempt(500, Some("boom")));
    req.next_attempt_at = Some("tomorrow".to_string());
    let before = store.clone();
    match report_delivery(&mut store, &DispatcherConfig::default(), &req, NOW, 5, 0).unwrap_err() {
        StoreError::Parse(m) => assert!(m.starts_with("invalid next_attempt_at: "), "{m}"),
        other => panic!("expected a parse error, got {:?}", other),
    }
    assert_eq!(store, before);
}

#[test]
fn report_max_attempts_forces_dead() {
    let mut store = Store::new();
    let endpoint_id = seed_endpoint(&mut store);
    let event_id = seed_event_with_attempts(
        &mut store,
        1,
        endpoint_id,
        "in_flight",
        None,
        Some(IN_AN_HOUR),
        Some("test-worker"),
        4,
    );
    let config = DispatcherConfig { max_attempts: 5, ..Default::default() };
    let report_req = ReportRequest {
        worker_id: "test-worker".to_string(),
        event_id,
        outcome: ReportOutcome::Retry,
        retryable: true,
        next_attempt_at: Some("2023-11-14T22:18:20+00:00".to_string()),
        attempt: ReportAttempt {
            started_at: "2023-11-14T22:13:20+00:00".to_string(),
            finished_at: "2023-11-14T22:13:20+00:00".to_string(),
            request_headers: BTreeMap::new(),
            request_body: "{}".to_string(),
            response_status: Some(503),
            response_headers: None,
            response_body: Some("Service Unavailable".to_string()),
            error_kind: None,
            error_message: Some("Connection timed out".to_string()),
        },
    };

    let result = report_delivery(&mut store, &config, &report_req, NOW, 0xa1, 30_000)
        .expect("report_delivery should succeed");
    assert_eq!(
        result.final_outcome,
        ReportOutcome::Dead,
        "final_outcome should be Dead when max_attempts exhausted"
    );
    let row = event(&store, event_id);
    assert_eq!(row.status, "dead", "status should be dead");
    assert_eq!(row.attempts, 5, "attempts should be 5");
    assert!(
        row.last_error.as_ref().unwrap().contains("max_attempts_exceeded"),
        "last_error should contain max_attempts_exceeded"
    );
    assert_eq!(
        row.last_error.as_deref(),
        Some("max_attempts_exceeded (5): Connection timed out")
    );
    assert_eq!(row.next_attempt_at, None);
}

#[test]
fn report_exhausted_without_a_message_says_unknown() {
    let mut store = Store::new();
    let endpoint_id = seed_endpoint(&mut store);
    seed_event_with_attempts(&mut store, 1, endpoint_id, "in_flight", None, Some(IN_AN_HOUR), Some("w"), 11);
    let config = DispatcherConfig { max_attempts: 12, ..Default::default() };
    let req = report_request("w", 1, ReportOutcome::Retry, attempt(500, None));
    let result = report_delivery(&mut store, &config, &req, NOW, 5, 0).expect("report");
    assert_eq!(result.final_outcome, ReportOutcome::Dead);
    assert_eq!(event(&store, 1).last_error.as_deref(), Some("max_attempts_exceeded (12): unknown"));
}

#[test]
fn report_under_max_attempts_preserves_retry() {
    let mut store = Store::new();
    let endpoint_id = seed_endpoint(&mut store);
    let event_id = seed_event_with_attempts(
        &mut store,
        1,
        endpoint_id,
        "in_flight",
        None,
        Some(IN_AN_HOUR),
        Some("test-worker"),
        2,
    );
    let config = DispatcherConfig { max_attempts: 5, ..Default::default() };
    let req = report_request(
        "test-worker",
        event_id,
        ReportOutcome::Retry,
        attempt(503, Some("Server error")),
    );
    let result = report_delivery(&mut store, &config, &req, NOW, 0xa1, 30_000)
        .expect("report_delivery should succeed");
    assert_eq!(
        result.final_outcome,
        ReportOutcome::Retry,
        "final_outcome should be Retry when under max_attempts"
    );
    let row = event(&store, event_id);
    assert_eq!(row.status, "pending", "status should be pending for retry");
    assert_eq!(row.attempts, 3, "attempts should be 3");
}

#[test]
fn report_at_max_attempts_keeps_a_delivery_delivered() {
    let mut store = Store::new();
    let endpoint_id = seed_endpoint(&mut store);
    let event_id = seed_event_with_attempts(
        &mut store,
        1,
        endpoint_id,
        "in_flight",
        None,
        Some(IN_AN_HOUR),
        Some("test-worker"),
        4,
    );
    let config = DispatcherConfig { max_attempts: 5, ..Default::default() };
    let mut req =
        report_request("test-worker", event_id, ReportOutcome::Delivered, attempt(200, None));
    req.retryable = false;
    let result =
        report_delivery(&mut store, &config, &req, NOW, 0xa1, 0).expect("report should succeed");
    assert_eq!(result.final_outcome, ReportOutcome::Delivered);
    let row = event(&store, event_id);
    assert_eq!(row.status, "delivered");
    assert_eq!(row.attempts, 5);
    assert_eq!(row.last_error, None);
}

#[test]
fn report_final_outcome_returned_in_result() {
    let mut store = Store::new();
    let endpoint_id = seed_endpoint(&mut store);
    let event_id =
        seed_event(&mut store, 1, endpoint_id, "in_flight", None, Some(IN_AN_HOUR), Some("worker"));
    let config = DispatcherConfig::default();
    let report_req = ReportRequest {
        worker_id: "worker".to_string(),
        event_id,
        outcome: ReportOutcome::Delivered,
        retryable: false,
        next_attempt_at: None,
        attempt: ReportAttempt {
            started_at: "2023-11-14T22:13:20+00:00".to_string(),
            finished_at: "2023-11-14T22:13:20+00:00".to_string(),
            request_headers: BTreeMap::new(),
            request_body: "{}".to_string(),
            response_status: Some(200),
            response_headers: None,
            response_body: None,
            error_kind: None,
            error_message: None,
        },
    };
    let result = report_delivery(&mut store, &config, &report_req, NOW, 0xa1, 0)
        .expect("report should succeed");
    assert_eq!(result.final_outcome, ReportOutcome::Delivered, "final_outcome should match reported outcome");
}

#[test]
fn a_settled_event_takes_no_further_report() {
    let mut store = Store::new();
    let endpoint_id = seed_endpoint(&mut store);
    seed_event(&mut store, 1, endpoint_id, "in_flight", None, Some(IN_AN_HOUR), Some("w"));
    let config = DispatcherConfig::default();
    let req = report_request("w", 1, ReportOutcome::Dead, attempt(410, Some("gone")));
    report_delivery(&mut store, &config, &req, NOW, 5, 0).expect("first report");
    assert_eq!(event(&store, 1).status, "dead");
    let settled = store.clone();

    let again = report_request("w", 1, ReportOutcome::Delivered, attempt(200, None));
    assert_eq!(
        report_delivery(&mut store, &config, &again, NOW, 6, 0).unwrap_err(),
        StoreError::Conflict("lease_missing".to_string())
    );
    assert_eq!(store, settled);
}

#[test]
fn failures_open_the_circuit_at_the_threshold() {
    let mut store = Store::new();
    let endpoint_id = seed_endpoint(&mut store);
    let config = DispatcherConfig::default();
    let endpoint = id_text(endpoint_id);

    let first = update_circuit_on_failure(&mut store, &config, &endpoint, endpoint_id, NOW, true, 30_000)
        .expect("snapshot");
    assert_eq!(first.state, TargetCircuitStatus::Closed);
    assert_eq!(first.consecutive_failures, 1);
    assert_eq!(first.open_until, None);
    assert_eq!(first.last_failure_at.as_deref(), Some(NOW_TEXT));
    update_circuit_on_failure(&mut store, &config, &endpoint, endpoint_id, NOW, true, 30_000);

    let third = update_circuit_on_failure(&mut store, &config, &endpoint, endpoint_id, NOW, true, 30_000)
        .expect("snapshot");
    assert_eq!(third.state, TargetCircuitStatus::Open);
    assert_eq!(third.consecutive_failures, 3);
    assert_eq!(third.open_until.as_deref(), Some("2023-11-14T22:13:50Z"));
    assert_eq!(store.circuits.len(), 1);
    assert_eq!(store.circuits[0].state, "open");
    assert_eq!(store.circuits[0].open_until.as_deref(), Some("2023-11-14T22:13:50Z"));

    let capped =
        update_circuit_on_failure(&mut store, &config, &endpoint, endpoint_id, NOW, true, 9_000_000)
            .expect("snapshot");
    assert_eq!(capped.consecutive_failures, 4);
    assert_eq!(capped.open_until.as_deref(), Some("2023-11-14T22:23:20Z"));

    let untouched = store.clone();
    assert!(update_circuit_on_failure(&mut store, &config, &endpoint, endpoint_id, NOW, false, 1).is_none());
    assert_eq!(store, untouched);
}

#[test]
fn cooldown_is_nothing_below_the_threshold_and_capped_above() {
    let config = DispatcherConfig::default();
    assert_eq!(compute_cooldown_ms(&config, 2, 30_000), 0);
    assert_eq!(compute_cooldown_ms(&config, 3, 30_000), 30_000);
    assert_eq!(compute_cooldown_ms(&config, 3, 7), 30_000);
    assert_eq!(compute_cooldown_ms(&config, 4, 60_000), 60_000);
    let tight = DispatcherConfig { circuit_cooldown_max_ms: 10_000, ..config };
    assert_eq!(compute_cooldown_ms(&tight, 3, 30_000), 10_000);
    assert_eq!(compute_cooldown_ms(&tight, 4, 9_999), 9_999);
    assert_eq!(compute_cooldown_ms(&config, 5, 120_000), 120_000);
    assert_eq!(compute_cooldown_ms(&config, 9, 1_920_000), 600_000);
}

#[test]
fn next_attempt_backs_off_by_powers_of_two() {
    assert_eq!(compute_next_attempt_at(NOW, 1), "2023-11-14T22:13:21Z");
    assert_eq!(compute_next_attempt_at(NOW, 4), "2023-11-14T22:13:28Z");
    assert_eq!(compute_next_attempt_at(NOW, 12), "2023-11-14T22:47:28Z");
    assert_eq!(compute_next_attempt_at(NOW, 13), "2023-11-14T23:13:20Z");
    assert_eq!(compute_next_attempt_at(NOW, 500), "2023-11-14T23:13:20Z");
    assert_eq!(compute_next_attempt_at(NOW, -3), "2023-11-14T22:13:21Z");
}

#[test]
fn leap_seconds_and_far_years_are_normalized_too() {
    assert_eq!(normalize_rfc3339_utc("2016-12-31T23:59:60Z").unwrap(), "2016-12-31T23:59:60Z");
    assert_eq!(
        normalize_rfc3339_utc("2017-01-01T05:29:60.25+05:30").unwrap(),
        "2016-12-31T23:59:60Z"
    );
    assert_eq!(
        normalize_rfc3339_utc("9999-12-31T23:59:59-23:59").unwrap(),
        "+10000-01-01T23:58:59Z"
    );
    assert_eq!(
        normalize_rfc3339_utc("0000-01-01T00:00:00+23:59").unwrap(),
        "-0001-12-31T00:01:00Z"
    );
    assert_eq!(normalize_rfc3339_utc("2023-11-14t22:13:20z").unwrap(), "2023-11-14T22:13:20Z");
}

#[test]
fn timestamps_are_normalized_to_utc_seconds() {
    assert_eq!(
        normalize_rfc3339_utc("2024-02-29T23:59:59.750+05:30").unwrap(),
        "2024-02-29T18:29:59Z"
    );
    match normalize_rfc3339_utc("yesterday").unwrap_err() {
        StoreError::Parse(m) => assert!(m.starts_with("invalid next_attempt_at: ")),
        other => panic!("expected a parse error, got {:?}", other),
    }
}

#[test]
fn the_exponent_of_a_failure_follows_the_count_on_record() {
    let mut store = Store::new();
    let endpoint_id = seed_endpoint(&mut store);
    seed_event(&mut store, 1, endpoint_id, "in_flight", None, Some(IN_AN_HOUR), Some("w"));
    let config = DispatcherConfig::default();
    assert_eq!(failure_exponent(&store, &config, 1), 0);
    assert_eq!(failure_exponent(&store, &config, 2), 0);
    seed_circuit_state(&mut store, endpoint_id, "open", None);
    store.circuits[0].consecutive_failures = 2;
    assert_eq!(failure_exponent(&store, &config, 1), 0);
    store.circuits[0].consecutive_failures = 6;
    assert_eq!(failure_exponent(&store, &config, 1), 4);
}

#[test]
fn a_store_knows_whether_its_keys_hold() {
    let mut store = Store::new();
    assert!(store.is_well_formed());
    let endpoint_id = seed_endpoint(&mut store);
    seed_event(&mut store, 1, endpoint_id, "pending", None, None, None);
    seed_event(&mut store, 2, endpoint_id, "pending", None, None, None);
    seed_circuit_state(&mut store, endpoint_id, "closed", None);
    assert!(store.is_well_formed());

    let mut twice = store.clone();
    twice.events[1].id = id_text(1);
    assert!(!twice.is_well_formed());

    let mut orphan = store.clone();
    orphan.events[0].endpoint_id = id_text(0xbad);
    assert!(!orphan.is_well_formed());

    let mut two_circuits = store.clone();
    seed_circuit_state(&mut two_circuits, endpoint_id, "open", None);
    assert!(!two_circuits.is_well_formed());

    let mut two_endpoints = store.clone();
    seed_endpoint(&mut two_endpoints);
    assert!(!two_endpoints.is_well_formed());
}

#[test]
fn a_report_is_in_reach_while_its_own_counters_have_room() {
    let mut store = Store::new();
    let endpoint_id = seed_endpoint(&mut store);
    seed_event(&mut store, 1, endpoint_id, "in_flight", None, Some(IN_AN_HOUR), Some("w"));
    seed_event(&mut store, 2, endpoint_id, "in_flight", None, Some(IN_AN_HOUR), Some("w"));
    seed_circuit_state(&mut store, endpoint_id, "closed", None);
    let no_cap = DispatcherConfig { circuit_cooldown_max_ms: u64::MAX, ..Default::default() };
    let failed = report_request("w", 1, ReportOutcome::Retry, attempt(500, None));
    let mut delivered = report_request("w", 1, ReportOutcome::Delivered, attempt(200, None));

    // a very large cap stands in nobody's way while the cooldown itself is small
    assert!(report_fits(&store, &no_cap, &failed, NOW, 30_000));
    store.circuits[0].consecutive_failures = 7;
    assert!(report_fits(&store, &no_cap, &failed, NOW, 480_000));
    assert!(!report_fits(&store, &no_cap, &failed, NOW, u64::MAX));
    assert!(report_fits(&store, &no_cap, &delivered, NOW, u64::MAX));
    delivered.retryable = false;
    assert!(report_fits(&store, &no_cap, &delivered, NOW, u64::MAX));
    let mut fatal = failed.clone();
    fatal.retryable = false;
    assert!(report_fits(&store, &no_cap, &fatal, NOW, u64::MAX));
    let result = report_delivery(&mut store, &no_cap, &failed, NOW, 9, 480_000).expect("report");
    assert_eq!(result.circuit.expect("counted").open_until.as_deref(), Some("2023-11-14T22:21:20Z"));

    // only the counters of the event reported on count
    store.events[1].attempts = i64::MAX;
    let config = DispatcherConfig::default();
    let unknown = report_request("w", 9, ReportOutcome::Retry, attempt(500, None));
    assert!(report_fits(&store, &config, &failed, NOW, 30_000));
    assert!(report_fits(&store, &config, &unknown, NOW, 30_000));
    let other = report_request("w", 2, ReportOutcome::Retry, attempt(500, None));
    assert!(!report_fits(&store, &config, &other, NOW, 30_000));

    store.circuits[0].consecutive_failures = i64::MAX;
    assert!(!report_fits(&store, &config, &failed, NOW, 30_000));
    assert!(!failure_fits(&store, &id_text(endpoint_id), &config, NOW, 30_000));
    assert!(failure_fits(&store, &id_text(0x77), &config, NOW, 30_000));
    assert_eq!(failure_exponent(&store, &config, 1), 9_223_372_036_854_775_805);
}

#[test]
fn an_instant_knows_what_can_be_added_to_it() {
    assert!(NOW.is_in_range());
    assert!(NOW.fits_millis(0));
    assert!(NOW.fits_millis(30_000));
    assert!(!NOW.fits_millis(u64::MAX));
    let last = Timestamp { secs: 253_402_300_799, nanos: 0 };
    assert!(last.is_in_range());
    assert!(last.fits_millis(3_600_000));
    assert_eq!(format_utc(last.plus_millis(3_600_000)), "+10000-01-01T00:59:59Z");
    let end = Timestamp { secs: 8_210_266_876_799, nanos: 999_999_999 };
    assert_eq!(format_utc(end), "+262142-12-31T23:59:59Z");
    assert!(!end.fits_millis(0));
    assert!(Timestamp { secs: 8_210_266_876_797, nanos: 999_999_999 }.fits_millis(999));
    assert!(Timestamp { secs: 8_210_266_876_797, nanos: 0 }.fits_millis(1_000));
    assert!(!Timestamp { secs: 8_210_266_876_798, nanos: 0 }.fits_millis(1_000));
    assert_eq!(
        format_utc(Timestamp { secs: 8_210_266_876_797, nanos: 0 }.plus_millis(1_999)),
        "+262142-12-31T23:59:58Z"
    );
    assert!(!Timestamp { secs: 253_402_300_800, nanos: 0 }.is_in_range());
    assert!(!Timestamp { secs: 0, nanos: 1_000_000_000 }.is_in_range());
    assert!(Timestamp { secs: 1, nanos: 999_999_999 }.at_or_before(&Timestamp { secs: 2, nanos: 0 }));
    assert!(!Timestamp { secs: 2, nanos: 1 }.at_or_before(&Timestamp { secs: 2, nanos: 0 }));
    assert_eq!(
        Timestamp { secs: 5, nanos: 999_000_000 }.plus_millis(1),
        Timestamp { secs: 6, nanos: 0 }
    );
}

#[test]
fn a_retry_beyond_the_budget_is_recorded_as_dead_with_its_message() {
    let mut store = Store::new();
    let endpoint_id = seed_endpoint(&mut store);
    seed_event_with_attempts(&mut store, 1, endpoint_id, "in_flight", None, Some(IN_AN_HOUR), Some("w"), 4);
    let config = DispatcherConfig { max_attempts: 5, ..Default::default() };
    let req = report_request("w", 1, ReportOutcome::Retry, attempt(504, Some("Timeout")));
    let result = report_delivery(&mut store, &config, &req, NOW, 9, 30_000).expect("report");
    assert_eq!(result.final_outcome, ReportOutcome::Dead);
    let row = event(&store, 1);
    assert_eq!(row.status, "dead");
    assert_eq!(row.attempts, 5);
    assert_eq!(row.last_error.as_deref(), Some("max_attempts_exceeded (5): Timeout"));
    assert_eq!(store.attempts.len(), 1);
    assert_eq!(store.attempts[0].attempt_no, 5);
    assert_eq!(store.attempts[0].error_message.as_deref(), Some("Timeout"));
    let circuit = result.circuit.expect("the failure was counted");
    assert_eq!(circuit.consecutive_failures, 1);
    assert_eq!(circuit.state, TargetCircuitStatus::Closed);
}
