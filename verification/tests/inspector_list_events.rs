use std::collections::BTreeMap;

use receiver::inspector::store::{attempt_from_optional_row, map_circuit};
use receiver::inspector::{
    get_event, list_attempts, list_events, replay_event, InspectorCursor, ListEventsParams,
    StoreError,
};
use receiver::tables::{AttemptRow, CircuitRow, EndpointRow, EventRow, ListAttemptsRow, Store};
use receiver::time::Timestamp;
use receiver::types::{TargetCircuitStatus, WebhookAttemptErrorKind, WebhookEventStatus};

const NOW: Timestamp = Timestamp { secs: 1_700_000_000, nanos: 0 };

fn id_text(id: u128) -> String {
    uuid::Uuid::from_u128(id).to_string()
}

fn seed_endpoint(store: &mut Store, id: u128, target_url: &str) -> u128 {
    store.endpoints.push(EndpointRow { id: id_text(id), target_url: target_url.to_string() });
    id
}

fn seed_event(
    store: &mut Store,
    id: u128,
    endpoint_id: u128,
    provider: &str,
    status: &str,
    received_at: &str,
) -> u128 {
    store.events.push(EventRow {
        id: id_text(id),
        endpoint_id: id_text(endpoint_id),
        replayed_from_event_id: None,
        provider: provider.to_string(),
        headers: "{}".to_string(),
        payload: r#"{"secret":"data"}"#.to_string(),
        status: status.to_string(),
        attempts: 0,
        received_at: received_at.to_string(),
        next_attempt_at: None,
        lease_expires_at: None,
        leased_by: None,
        last_error: None,
    });
    id
}

fn seed_circuit_state(store: &mut Store, endpoint_id: u128, state: &str, open_until: Option<&str>) {
    store.circuits.push(CircuitRow {
        endpoint_id: id_text(endpoint_id),
        state: state.to_string(),
        open_until: open_until.map(str::to_string),
        consecutive_failures: 3,
        last_failure_at: None,
    });
}

/// The time `seconds` seconds before a fixed instant, as a listing orders it.
fn ago(seconds: u32) -> String {
    format!("2023-11-14T22:13:{:02}+00:00", 20 - seconds)
}

fn all(limit: i64) -> ListEventsParams {
    ListEventsParams { limit, before: None, status: None, endpoint_id: None, provider: None }
}

#[test]
fn list_events_returns_empty_when_no_events() {
    let store = Store::new();
    let result = list_events(&store, &all(50)).expect("list_events");
    assert!(result.events.is_empty());
    assert!(result.next_before.is_none());
}

#[test]
fn list_events_returns_summary_without_payload() {
    let mut store = Store::new();
    let endpoint_id = seed_endpoint(&mut store, 0xe0, "https://example.com/hook");
    let event_id = seed_event(&mut store, 1, endpoint_id, "stripe", "pending", &ago(0));
    let result = list_events(&store, &all(50)).expect("list_events");
    assert_eq!(result.events.len(), 1);
    assert_eq!(result.events[0].event.id, event_id);
    assert_eq!(result.events[0].event.provider, "stripe");
    assert_eq!(result.events[0].event.status, WebhookEventStatus::Pending);
    assert_eq!(result.events[0].event.endpoint_id, endpoint_id);
    assert_eq!(result.events[0].event.received_at, ago(0));
}

#[test]
fn list_events_joins_target_url() {
    let mut store = Store::new();
    let endpoint_id = seed_endpoint(&mut store, 0xe0, "https://custom.example.com/webhooks");
    seed_event(&mut store, 1, endpoint_id, "stripe", "pending", &ago(0));
    let result = list_events(&store, &all(50)).expect("list_events");
    assert_eq!(result.events[0].target_url, "https://custom.example.com/webhooks");
}

#[test]
fn list_events_joins_circuit_state() {
    let mut store = Store::new();
    let endpoint_id = seed_endpoint(&mut store, 0xe0, "https://example.com/hook");
    seed_event(&mut store, 1, endpoint_id, "stripe", "pending", &ago(0));
    seed_circuit_state(&mut store, endpoint_id, "open", Some("2023-11-14T23:13:20+00:00"));
    let result = list_events(&store, &all(50)).expect("list_events");
    let circuit = result.events[0].circuit.as_ref().expect("circuit present");
    assert_eq!(circuit.state, TargetCircuitStatus::Open);
    assert_eq!(circuit.consecutive_failures, 3);
    assert_eq!(circuit.endpoint_id, endpoint_id);
}

#[test]
fn list_events_circuit_none_when_missing() {
    let mut store = Store::new();
    let endpoint_id = seed_endpoint(&mut store, 0xe0, "https://example.com/hook");
    seed_event(&mut store, 1, endpoint_id, "stripe", "pending", &ago(0));
    let result = list_events(&store, &all(50)).expect("list_events");
    assert!(result.events[0].circuit.is_none());
}

#[test]
fn list_events_filters_by_status() {
    let mut store = Store::new();
    let endpoint_id = seed_endpoint(&mut store, 0xe0, "https://example.com/hook");
    seed_event(&mut store, 1, endpoint_id, "stripe", "pending", &ago(2));
    seed_event(&mut store, 2, endpoint_id, "stripe", "delivered", &ago(1));
    seed_event(&mut store, 3, endpoint_id, "stripe", "dead", &ago(0));
    let params = ListEventsParams { status: Some(WebhookEventStatus::Delivered), ..all(50) };
    let result = list_events(&store, &params).expect("list_events");
    assert_eq!(result.events.len(), 1);
    assert_eq!(result.events[0].event.status, WebhookEventStatus::Delivered);
}

#[test]
fn list_events_filters_by_endpoint_id() {
    let mut store = Store::new();
    let endpoint_a = seed_endpoint(&mut store, 0xa, "https://a.example.com");
    let endpoint_b = seed_endpoint(&mut store, 0xb, "https://b.example.com");
    seed_event(&mut store, 1, endpoint_a, "stripe", "pending", &ago(1));
    seed_event(&mut store, 2, endpoint_b, "stripe", "pending", &ago(0));
    let params = ListEventsParams { endpoint_id: Some(endpoint_b), ..all(50) };
    let result = list_events(&store, &params).expect("list_events");
    assert_eq!(result.events.len(), 1);
    assert_eq!(result.events[0].event.endpoint_id, endpoint_b);
}

#[test]
fn list_events_filters_by_provider() {
    let mut store = Store::new();
    let endpoint_id = seed_endpoint(&mut store, 0xe0, "https://example.com/hook");
    seed_event(&mut store, 1, endpoint_id, "stripe", "pending", &ago(1));
    seed_event(&mut store, 2, endpoint_id, "github", "pending", &ago(0));
    let params = ListEventsParams { provider: Some("github".to_string()), ..all(50) };
    let result = list_events(&store, &params).expect("list_events");
    assert_eq!(result.events.len(), 1);
    assert_eq!(result.events[0].event.provider, "github");
}

#[test]
fn list_events_respects_limit() {
    let mut store = Store::new();
    let endpoint_id = seed_endpoint(&mut store, 0xe0, "https://example.com/hook");
    for i in 0..5 {
        seed_event(&mut store, 1 + i as u128, endpoint_id, "stripe", "pending", &ago(i));
    }
    let result = list_events(&store, &all(3)).expect("list_events");
    assert_eq!(result.events.len(), 3);
    assert!(result.next_before.is_some());
}

#[test]
fn list_events_gives_no_cursor_on_the_last_page() {
    let mut store = Store::new();
    let endpoint_id = seed_endpoint(&mut store, 0xe0, "https://example.com/hook");
    for i in 0..3 {
        seed_event(&mut store, 1 + i as u128, endpoint_id, "stripe", "pending", &ago(i));
    }
    let result = list_events(&store, &all(3)).expect("list_events");
    assert_eq!(result.events.len(), 3);
    assert!(result.next_before.is_none());
}

#[test]
fn list_events_cursor_pagination() {
    let mut store = Store::new();
    let endpoint_id = seed_endpoint(&mut store, 0xe0, "https://example.com/hook");
    let mut ids = Vec::new();
    for i in 0..5 {
        ids.push(seed_event(&mut store, 50 - i as u128, endpoint_id, "stripe", "pending", &ago(i)));
    }

    let first_page = list_events(&store, &all(2)).expect("first page");
    assert_eq!(first_page.events.len(), 2);
    assert_eq!(first_page.events[0].event.id, ids[0]);
    assert_eq!(first_page.events[1].event.id, ids[1]);
    let cursor = first_page.next_before.expect("cursor present");
    assert_eq!(cursor, InspectorCursor { received_at: ago(1), id: ids[1] });

    let second_page = list_events(&store, &ListEventsParams { before: Some(cursor), ..all(2) })
        .expect("second page");
    assert_eq!(second_page.events.len(), 2);
    assert_eq!(second_page.events[0].event.id, ids[2]);
    assert_eq!(second_page.events[1].event.id, ids[3]);

    let third_page = list_events(
        &store,
        &ListEventsParams { before: second_page.next_before, ..all(2) },
    )
    .expect("third page");
    assert_eq!(third_page.events.len(), 1);
    assert_eq!(third_page.events[0].event.id, ids[4]);
    assert!(third_page.next_before.is_none());
}

#[test]
fn list_events_breaks_ties_by_id() {
    let mut store = Store::new();
    let endpoint_id = seed_endpoint(&mut store, 0xe0, "https://example.com/hook");
    seed_event(&mut store, 2, endpoint_id, "stripe", "pending", &ago(0));
    seed_event(&mut store, 3, endpoint_id, "stripe", "pending", &ago(0));
    seed_event(&mut store, 1, endpoint_id, "stripe", "pending", &ago(0));
    let first = list_events(&store, &all(2)).expect("first page");
    let ids: Vec<u128> = first.events.iter().map(|e| e.event.id).collect();
    assert_eq!(ids, vec![3, 2]);
    let rest = list_events(&store, &ListEventsParams { before: first.next_before, ..all(2) })
        .expect("second page");
    let ids: Vec<u128> = rest.events.iter().map(|e| e.event.id).collect();
    assert_eq!(ids, vec![1]);
}

#[test]
fn list_events_ordering_desc() {
    let mut store = Store::new();
    let endpoint_id = seed_endpoint(&mut store, 0xe0, "https://example.com/hook");
    let oldest = seed_event(&mut store, 1, endpoint_id, "stripe", "pending", &ago(2));
    let middle = seed_event(&mut store, 2, endpoint_id, "stripe", "pending", &ago(1));
    let newest = seed_event(&mut store, 3, endpoint_id, "stripe", "pending", &ago(0));
    let result = list_events(&store, &all(50)).expect("list_events");
    assert_eq!(result.events[0].event.id, newest);
    assert_eq!(result.events[1].event.id, middle);
    assert_eq!(result.events[2].event.id, oldest);
}

#[test]
fn list_events_cursor_stability() {
    let mut store = Store::new();
    let endpoint_id = seed_endpoint(&mut store, 0xe0, "https://example.com/hook");
    for i in 0..4 {
        seed_event(&mut store, 1 + i as u128, endpoint_id, "stripe", "pending", &ago(i));
    }
    let first_run = list_events(&store, &all(2)).expect("first run");
    let cursor = first_run.next_before.clone().expect("cursor");
    let second_run =
        list_events(&store, &ListEventsParams { before: Some(cursor.clone()), ..all(2) })
            .expect("second run");
    let third_run = list_events(&store, &ListEventsParams { before: Some(cursor), ..all(2) })
        .expect("third run");
    assert_eq!(second_run.events.len(), third_run.events.len());
    for (a, b) in second_run.events.iter().zip(third_run.events.iter()) {
        assert_eq!(a.event.id, b.event.id);
    }
    assert_eq!(second_run, third_run);
}

#[test]
fn list_events_reports_a_row_it_cannot_read() {
    let mut store = Store::new();
    let endpoint_id = seed_endpoint(&mut store, 0xe0, "https://example.com/hook");
    seed_event(&mut store, 1, endpoint_id, "stripe", "shelved", &ago(0));
    assert_eq!(
        list_events(&store, &all(10)).unwrap_err(),
        StoreError::Parse("unknown status: shelved".to_string())
    );
}

#[test]
fn get_event_returns_full_payload() {
    let mut store = Store::new();
    let endpoint_id = seed_endpoint(&mut store, 0xe0, "https://example.com/hook");
    let event_id = seed_event(&mut store, 1, endpoint_id, "stripe", "pending", &ago(0));
    store.events[0].headers = r#"{"x-sig":"abc"}"#.to_string();
    let result = get_event(&store, event_id).expect("get_event");
    assert_eq!(result.event.id, event_id);
    assert_eq!(result.event.payload, r#"{"secret":"data"}"#);
    assert_eq!(result.event.provider, "stripe");
    assert_eq!(result.target_url, "https://example.com/hook");
    assert_eq!(result.event.headers, BTreeMap::from([("x-sig".to_string(), "abc".to_string())]));
}

#[test]
fn get_event_not_found() {
    let store = Store::new();
    let result = get_event(&store, 77);
    assert!(matches!(result, Err(StoreError::NotFound(_))));
    assert_eq!(result.unwrap_err(), StoreError::NotFound("event not found".to_string()));
}

#[test]
fn get_event_includes_circuit_state() {
    let mut store = Store::new();
    let endpoint_id = seed_endpoint(&mut store, 0xe0, "https://example.com/hook");
    let event_id = seed_event(&mut store, 1, endpoint_id, "stripe", "pending", &ago(0));
    seed_circuit_state(&mut store, endpoint_id, "open", Some("2023-11-14T23:13:20+00:00"));
    let result = get_event(&store, event_id).expect("get_event");
    let circuit = result.circuit.expect("circuit present");
    assert_eq!(circuit.state, TargetCircuitStatus::Open);
    assert_eq!(circuit.consecutive_failures, 3);
    assert_eq!(circuit.open_until.as_deref(), Some("2023-11-14T23:13:20+00:00"));
}

#[test]
fn get_event_circuit_none_when_missing() {
    let mut store = Store::new();
    let endpoint_id = seed_endpoint(&mut store, 0xe0, "https://example.com/hook");
    let event_id = seed_event(&mut store, 1, endpoint_id, "stripe", "pending", &ago(0));
    let result = get_event(&store, event_id).expect("get_event");
    assert!(result.circuit.is_none());
}

#[test]
fn get_event_reads_where_it_was_replayed_from() {
    let mut store = Store::new();
    let endpoint_id = seed_endpoint(&mut store, 0xe0, "https://example.com/hook");
    seed_event(&mut store, 1, endpoint_id, "stripe", "pending", &ago(0));
    store.events[0].replayed_from_event_id = Some(id_text(9));
    assert_eq!(get_event(&store, 1).unwrap().event.replayed_from_event_id, Some(9));
    store.events[0].replayed_from_event_id = Some(String::new());
    assert_eq!(get_event(&store, 1).unwrap().event.replayed_from_event_id, None);
    store.events[0].replayed_from_event_id = Some("nine".to_string());
    match get_event(&store, 1).unwrap_err() {
        StoreError::Parse(m) => assert!(m.starts_with("invalid replayed_from_event_id: "), "{m}"),
        other => panic!("expected a parse error, got {:?}", other),
    }
}

fn attempt_row(id: u128, event_id: u128, attempt_no: i64, started_at: &str) -> AttemptRow {
    AttemptRow {
        id: id_text(id),
        event_id: id_text(event_id),
        attempt_no,
        started_at: started_at.to_string(),
        finished_at: started_at.to_string(),
        request_headers: "{}".to_string(),
        request_body: "body".to_string(),
        response_status: Some(500),
        response_headers: Some(r#"{"a":"b"}"#.to_string()),
        response_body: None,
        error_kind: Some("network".to_string()),
        error_message: Some("reset".to_string()),
    }
}

#[test]
fn list_attempts_is_empty_for_an_event_never_attempted() {
    let mut store = Store::new();
    let endpoint_id = seed_endpoint(&mut store, 0xe0, "https://example.com/hook");
    seed_event(&mut store, 1, endpoint_id, "stripe", "pending", &ago(0));
    assert!(list_attempts(&store, 1).expect("list_attempts").attempts.is_empty());
    assert_eq!(
        list_attempts(&store, 2).unwrap_err(),
        StoreError::NotFound("event not found".to_string())
    );
}

#[test]
fn list_attempts_orders_by_start_then_number() {
    let mut store = Store::new();
    let endpoint_id = seed_endpoint(&mut store, 0xe0, "https://example.com/hook");
    seed_event(&mut store, 1, endpoint_id, "stripe", "pending", &ago(0));
    seed_event(&mut store, 2, endpoint_id, "stripe", "pending", &ago(1));
    store.attempts.push(attempt_row(0x13, 1, 3, "2023-11-14T22:00:02Z"));
    store.attempts.push(attempt_row(0x21, 2, 1, "2023-11-14T22:00:00Z"));
    store.attempts.push(attempt_row(0x12, 1, 2, "2023-11-14T22:00:01Z"));
    store.attempts.push(attempt_row(0x11, 1, 1, "2023-11-14T22:00:01Z"));
    let attempts = list_attempts(&store, 1).expect("list_attempts").attempts;
    let ids: Vec<u128> = attempts.iter().map(|a| a.id).collect();
    assert_eq!(ids, vec![0x11, 0x12, 0x13]);
    assert_eq!(attempts[0].event_id, 1);
    assert_eq!(attempts[0].error_kind, Some(WebhookAttemptErrorKind::Network));
    assert_eq!(
        attempts[0].response_headers,
        Some(BTreeMap::from([("a".to_string(), "b".to_string())]))
    );
}

fn bare_attempts_row() -> ListAttemptsRow {
    ListAttemptsRow {
        event_id: id_text(1),
        attempt_id: Some(id_text(2)),
        attempt_no: Some(1),
        started_at: Some("s".to_string()),
        finished_at: Some("f".to_string()),
        request_headers: Some("{}".to_string()),
        request_body: Some("b".to_string()),
        response_status: None,
        response_headers: None,
        response_body: None,
        error_kind: None,
        error_message: None,
    }
}

#[test]
fn attempt_rows_report_what_is_missing() {
    let mut row = bare_attempts_row();
    row.attempt_id = None;
    row.attempt_no = None;
    assert_eq!(attempt_from_optional_row(row), Ok(None));

    let mut row = bare_attempts_row();
    row.attempt_no = None;
    assert_eq!(
        attempt_from_optional_row(row).unwrap_err(),
        StoreError::Parse("attempt row missing attempt_no".to_string())
    );
    let mut row = bare_attempts_row();
    row.started_at = None;
    assert_eq!(
        attempt_from_optional_row(row).unwrap_err(),
        StoreError::Parse("attempt row missing started_at".to_string())
    );
    let mut row = bare_attempts_row();
    row.finished_at = None;
    assert_eq!(
        attempt_from_optional_row(row).unwrap_err(),
        StoreError::Parse("attempt row missing finished_at".to_string())
    );
    let mut row = bare_attempts_row();
    row.request_headers = None;
    assert_eq!(
        attempt_from_optional_row(row).unwrap_err(),
        StoreError::Parse("attempt row missing request_headers".to_string())
    );
    let mut row = bare_attempts_row();
    row.request_body = None;
    assert_eq!(
        attempt_from_optional_row(row).unwrap_err(),
        StoreError::Parse("attempt row missing request_body".to_string())
    );
    let mut row = bare_attempts_row();
    row.error_kind = Some("cosmic".to_string());
    assert_eq!(
        attempt_from_optional_row(row).unwrap_err(),
        StoreError::Parse("unknown error kind: cosmic".to_string())
    );
    let attempt = attempt_from_optional_row(bare_attempts_row()).unwrap().expect("an attempt");
    assert_eq!(attempt.id, 2);
    assert_eq!(attempt.event_id, 1);
}

#[test]
fn circuit_columns_are_read_together() {
    let endpoint = id_text(5);
    assert_eq!(map_circuit(&endpoint, None, Some("x"), Some(2), None), Ok(None));
    let circuit = map_circuit(&endpoint, Some("open"), Some("t"), None, Some("u"))
        .unwrap()
        .expect("a circuit");
    assert_eq!(circuit.endpoint_id, 5);
    assert_eq!(circuit.state, TargetCircuitStatus::Open);
    assert_eq!(circuit.consecutive_failures, 0);
    assert_eq!(circuit.open_until.as_deref(), Some("t"));
    assert_eq!(circuit.last_failure_at.as_deref(), Some("u"));
    assert_eq!(
        map_circuit(&endpoint, Some("ajar"), None, None, None).unwrap_err(),
        StoreError::Parse("unknown circuit status: ajar".to_string())
    );
    assert!(matches!(
        map_circuit("five", Some("open"), None, None, None),
        Err(StoreError::Parse(_))
    ));
}

#[test]
fn replay_adds_a_pending_copy_and_leaves_the_source() {
    let mut store = Store::new();
    let endpoint_id = seed_endpoint(&mut store, 0xe0, "https://example.com/hook");
    seed_event(&mut store, 1, endpoint_id, "stripe", "dead", &ago(3));
    store.events[0].attempts = 5;
    store.events[0].last_error = Some("max_attempts_exceeded (5): x".to_string());
    seed_circuit_state(&mut store, endpoint_id, "open", Some("2023-11-14T23:13:20+00:00"));
    let source = store.events[0].clone();

    let res = replay_event(&mut store, 1, false, NOW, 2).expect("replay");
    assert_eq!(res.event.id, 2);
    assert_eq!(res.event.endpoint_id, endpoint_id);
    assert_eq!(res.event.replayed_from_event_id, Some(1));
    assert_eq!(res.event.status, WebhookEventStatus::Pending);
    assert_eq!(res.event.attempts, 0);
    assert_eq!(res.event.received_at, ago(3));
    assert_eq!(res.event.next_attempt_at, None);
    assert_eq!(res.event.last_error, None);
    assert_eq!(res.circuit.expect("circuit").state, TargetCircuitStatus::Open);

    assert_eq!(store.events.len(), 2);
    assert_eq!(store.events[0], source);
    let copy = &store.events[1];
    assert_eq!(copy.id, id_text(2));
    assert_eq!(copy.replayed_from_event_id, Some(id_text(1)));
    assert_eq!(copy.status, "pending");
    assert_eq!(copy.attempts, 0);
    assert_eq!(copy.payload, source.payload);
    assert_eq!(copy.headers, source.headers);
    assert_eq!(copy.provider, source.provider);
    assert_eq!(copy.leased_by, None);
    assert_eq!(copy.last_error, None);
    assert_eq!(store.circuits[0].state, "open");
}

#[test]
fn replay_can_reset_the_circuit() {
    let mut store = Store::new();
    let endpoint_id = seed_endpoint(&mut store, 0xe0, "https://example.com/hook");
    seed_event(&mut store, 1, endpoint_id, "stripe", "delivered", &ago(3));
    seed_circuit_state(&mut store, endpoint_id, "open", Some("2023-11-14T23:13:20+00:00"));
    let res = replay_event(&mut store, 1, true, NOW, 2).expect("replay");
    let circuit = res.circuit.expect("circuit");
    assert_eq!(circuit.state, TargetCircuitStatus::Closed);
    assert_eq!(circuit.consecutive_failures, 0);
    assert_eq!(circuit.open_until, None);
    assert_eq!(store.circuits[0].state, "closed");
    assert_eq!(store.circuits[0].consecutive_failures, 0);
    assert_eq!(store.circuits[0].open_until, None);
}

#[test]
fn replay_waits_for_a_running_lease() {
    let mut store = Store::new();
    let endpoint_id = seed_endpoint(&mut store, 0xe0, "https://example.com/hook");
    seed_event(&mut store, 1, endpoint_id, "stripe", "in_flight", &ago(3));
    store.events[0].leased_by = Some("w".to_string());
    let before = store.clone();

    assert_eq!(
        replay_event(&mut store, 1, false, NOW, 2).unwrap_err(),
        StoreError::Conflict("lease_missing".to_string())
    );
    store.events[0].lease_expires_at = Some("soon".to_string());
    assert_eq!(
        replay_event(&mut store, 1, false, NOW, 2).unwrap_err(),
        StoreError::Parse("invalid lease_expires_at".to_string())
    );
    store.events[0].lease_expires_at = Some("2023-11-14T22:13:21Z".to_string());
    assert_eq!(
        replay_event(&mut store, 1, false, NOW, 2).unwrap_err(),
        StoreError::Conflict("lease_active".to_string())
    );
    assert_eq!(store.events.len(), before.events.len());

    store.events[0].lease_expires_at = Some("2023-11-14T22:13:20Z".to_string());
    let res = replay_event(&mut store, 1, false, NOW, 2).expect("lease has run out");
    assert_eq!(res.event.id, 2);
    assert_eq!(store.events[0].status, "in_flight");
}

#[test]
fn replay_refuses_what_it_cannot_find_or_place() {
    let mut store = Store::new();
    let endpoint_id = seed_endpoint(&mut store, 0xe0, "https://example.com/hook");
    seed_event(&mut store, 1, endpoint_id, "stripe", "dead", &ago(3));
    let before = store.clone();
    assert_eq!(
        replay_event(&mut store, 7, false, NOW, 2).unwrap_err(),
        StoreError::NotFound("event not found".to_string())
    );
    assert!(matches!(replay_event(&mut store, 1, false, NOW, 1), Err(StoreError::Db(_))));
    assert_eq!(store, before);
}
