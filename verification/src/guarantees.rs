//! What holds of the store across calls, whatever the calls are.

use vstd::prelude::*;

use crate::dispatcher::config::DispatcherConfig;
use crate::dispatcher::circuit::{
    cooldown_ms, failed_circuit, failure_in_reach, failure_snapshot, failures_on_record,
};
use crate::dispatcher::lease::{
    cooled_down, eligible, is_lease_selection, lease_key, lease_lapsed, lease_outcome,
    leased_before, leased_event_of, leased_rows,
};
use crate::dispatcher::report::{
    final_outcome, lease_refusal, outcome_status, report_effect, report_in_reach, report_outcome,
    report_refusal, report_result, response_headers_json, ReportResult,
};
use crate::ids::{as_written, uuid_from_text, uuid_text};
use crate::inspector::store::{
    after_cursor, cursor_view, is_listing, list_events_outcome, list_item_of_row, list_key, listed,
    replay_effect, replay_refusal, InspectorCursorView, ListEventsParamsView, ListEventsResult,
};
use crate::json::text_map_to_json;
use crate::order::{key_lt, lemma_key_lt_asym, lemma_key_lt_trans, SortKeyView};
use crate::tables::{
    lemma_position, lemma_same_keys_wf, position, AttemptRowView, EventRowView, JoinedEventView,
    StoreError, StoreErrorView, StoreView,
};
use crate::text::{lemma_text_le_antisym, text_le, text_lt};
use crate::time::Timestamp;
use crate::types::dispatcher::{LeasedEvent, LeasedEventView, ReportRequestView};
use crate::types::target_circuit_state::TargetCircuitStateView;
use crate::types::{ReportOutcome, TargetCircuitStatus, WebhookEventStatus};

verus! {

/// The ways a status is spelled are all different.
pub proof fn lemma_status_texts_differ(a: WebhookEventStatus, b: WebhookEventStatus)
    ensures
        a.text() == b.text() <==> a == b,
{
    a.lemma_text_round_trip();
    b.lemma_text_round_trip();
}

/// A report that goes through counts one attempt: the event has one attempt
/// more than before, and the log has a row for that attempt under its number.
pub proof fn lemma_report_counts_one_attempt(
    pre: StoreView,
    config: DispatcherConfig,
    req: ReportRequestView,
    now: Timestamp,
    attempt_id: u128,
    scaled_ms: u64,
)
    requires
        pre.wf(),
        report_in_reach(pre, config, req, now, scaled_ms),
        report_refusal(pre, config, req, now) is None,
    ensures
        ({
            let i = position(pre.event_ids(), uuid_text(req.event_id)).unwrap();
            let post = report_effect(pre, config, req, now, attempt_id, scaled_ms);
            &&& post.events.len() == pre.events.len()
            &&& post.events[i].id == pre.events[i].id
            &&& post.events[i].attempts == pre.events[i].attempts + 1
            &&& post.attempts.len() == pre.attempts.len() + 1
            &&& post.attempts.last().event_id == pre.events[i].id
            &&& post.attempts.last().attempt_no == pre.events[i].attempts + 1
            &&& forall|k: int| 0 <= k < pre.attempts.len() ==> post.attempts[k] == pre.attempts[k]
        }),
{
    lemma_position(pre.event_ids(), uuid_text(req.event_id));
}

/// The attempt budget decides: reported as a retry, the attempt that uses up
/// the budget leaves the event dead, and dead is the outcome handed back;
/// reported as delivered, it leaves the event delivered.
pub proof fn lemma_retry_budget(
    pre: StoreView,
    config: DispatcherConfig,
    req: ReportRequestView,
    now: Timestamp,
    attempt_id: u128,
    scaled_ms: u64,
)
    requires
        pre.wf(),
        report_refusal(pre, config, req, now) is None,
        pre.events[position(pre.event_ids(), uuid_text(req.event_id)).unwrap()].attempts + 1
            >= config.max_attempts,
    ensures
        ({
            let i = position(pre.event_ids(), uuid_text(req.event_id)).unwrap();
            let post = report_effect(pre, config, req, now, attempt_id, scaled_ms);
            let result = report_result(pre, config, req, now, scaled_ms);
            &&& req.outcome == ReportOutcome::Retry ==> post.events[i].status
                == WebhookEventStatus::Dead.text() && result.final_outcome == ReportOutcome::Dead
            &&& req.outcome == ReportOutcome::Delivered ==> post.events[i].status
                == WebhookEventStatus::Delivered.text() && result.final_outcome
                == ReportOutcome::Delivered
        }),
{
    lemma_position(pre.event_ids(), uuid_text(req.event_id));
}

impl StoreView {
    /// Every event in flight is under a lease, and no event that is delivered
    /// or dead has a lease or a next attempt.
    pub open spec fn leases_in_order(self) -> bool {
        forall|i: int|
            0 <= i < self.events.len() ==> {
                let e = #[trigger] self.events[i];
                &&& e.status == WebhookEventStatus::InFlight.text() ==> e.leased_by is Some
                    && e.lease_expires_at is Some
                &&& e.status == WebhookEventStatus::Delivered.text() || e.status
                    == WebhookEventStatus::Dead.text() ==> e.leased_by is None
                    && e.lease_expires_at is None && e.next_attempt_at is None
            }
    }
}

/// Delivered and dead are final: a report on such an event is turned away,
/// whoever makes it and whatever it says, so it leaves the store as it was.
pub proof fn lemma_terminal_events_stay(
    pre: StoreView,
    config: DispatcherConfig,
    req: ReportRequestView,
    now: Timestamp,
)
    requires
        pre.wf(),
        pre.leases_in_order(),
        position(pre.event_ids(), uuid_text(req.event_id)) matches Some(i) && (
        pre.events[i].status == WebhookEventStatus::Delivered.text() || pre.events[i].status
            == WebhookEventStatus::Dead.text()),
    ensures
        report_refusal(pre, config, req, now) is Some,
{
    lemma_position(pre.event_ids(), uuid_text(req.event_id));
}

/// A report that goes through leaves the leases in order: the event it
/// settles has no lease any more.
pub proof fn lemma_report_keeps_leases_in_order(
    pre: StoreView,
    config: DispatcherConfig,
    req: ReportRequestView,
    now: Timestamp,
    attempt_id: u128,
    scaled_ms: u64,
)
    requires
        pre.wf(),
        pre.leases_in_order(),
        report_refusal(pre, config, req, now) is None,
    ensures
        report_effect(pre, config, req, now, attempt_id, scaled_ms).leases_in_order(),
{
    lemma_position(pre.event_ids(), uuid_text(req.event_id));
    let i = position(pre.event_ids(), uuid_text(req.event_id)).unwrap();
    let post = report_effect(pre, config, req, now, attempt_id, scaled_ms);
    let outcome = final_outcome(config, pre.events[i].attempts, req.outcome);
    lemma_status_texts_differ(outcome_status(outcome), WebhookEventStatus::InFlight);
    lemma_status_texts_differ(outcome_status(outcome), WebhookEventStatus::Delivered);
    lemma_status_texts_differ(outcome_status(outcome), WebhookEventStatus::Dead);
    assert forall|k: int| 0 <= k < post.events.len() implies {
        let e = #[trigger] post.events[k];
        &&& e.status == WebhookEventStatus::InFlight.text() ==> e.leased_by is Some
            && e.lease_expires_at is Some
        &&& e.status == WebhookEventStatus::Delivered.text() || e.status
            == WebhookEventStatus::Dead.text() ==> e.leased_by is None && e.lease_expires_at is None
            && e.next_attempt_at is None
    } by {
        if k != i {
            assert(post.events[k] == pre.events[k]);
        }
    }
}

/// The threshold decides. After a retryable failure the circuit of the
/// endpoint is open exactly if the failures in a row have reached the
/// threshold. It is then open until `now` plus a cooldown of at most
/// `circuit_cooldown_max_ms`; below the threshold it is closed, with no time
/// to reopen at. Either way the failure is counted and dated.
pub proof fn lemma_threshold_opens_circuit(
    pre: StoreView,
    endpoint_id: Seq<char>,
    config: DispatcherConfig,
    now: Timestamp,
    scaled_ms: u64,
)
    requires
        pre.wf(),
        failures_on_record(pre, endpoint_id) < i64::MAX,
    ensures
        ({
            let post = pre.with_failure(endpoint_id, config, now, true, scaled_ms);
            let failures = failures_on_record(pre, endpoint_id) + 1;
            let cooldown = cooldown_ms(config, failures, scaled_ms);
            &&& 0 <= cooldown <= config.circuit_cooldown_max_ms
            &&& position(post.circuit_keys(), endpoint_id) matches Some(k) && {
                let circuit = post.circuits[k];
                &&& circuit.consecutive_failures == failures
                &&& circuit.last_failure_at == Some(now.text())
                &&& circuit.state == TargetCircuitStatus::Open.text() <==> failures
                    >= config.circuit_failure_threshold
                &&& failures >= config.circuit_failure_threshold ==> circuit.open_until == Some(
                    now.add_millis(cooldown).text(),
                )
                &&& failures < config.circuit_failure_threshold ==> circuit.state
                    == TargetCircuitStatus::Closed.text() && circuit.open_until is None
            }
        }),
{
    let row = failed_circuit(
        endpoint_id,
        failures_on_record(pre, endpoint_id) + 1,
        config,
        now,
        scaled_ms,
    );
    let post = pre.with_circuit(row);
    lemma_position(pre.circuit_keys(), endpoint_id);
    TargetCircuitStatus::Open.lemma_text_round_trip();
    TargetCircuitStatus::Closed.lemma_text_round_trip();
    assert(post == pre.with_failure(endpoint_id, config, now, true, scaled_ms));
    match position(pre.circuit_keys(), endpoint_id) {
        Some(k) => {
            assert(post.circuit_keys() =~= pre.circuit_keys());
            assert(post.circuits[k] == row);
        },
        None => {
            let n = pre.circuits.len() as int;
            assert(post.circuit_keys() =~= pre.circuit_keys().push(endpoint_id));
            lemma_position(post.circuit_keys(), endpoint_id);
            assert(post.circuit_keys()[n] == endpoint_id);
            let i = position(post.circuit_keys(), endpoint_id).unwrap();
            if i < n {
                assert(pre.circuit_keys()[i] == post.circuit_keys()[i]);
            }
            assert(i == n);
            assert(post.circuits[n] == row);
        },
    }
}

/// A delivery closes the circuit: after a report of a delivery that goes
/// through, the endpoint of the event has no circuit row or one that is
/// closed with no failures counted.
pub proof fn lemma_delivery_closes_circuit(
    pre: StoreView,
    config: DispatcherConfig,
    req: ReportRequestView,
    now: Timestamp,
    attempt_id: u128,
    scaled_ms: u64,
)
    requires
        pre.wf(),
        report_refusal(pre, config, req, now) is None,
        req.outcome == ReportOutcome::Delivered,
    ensures
        ({
            let i = position(pre.event_ids(), uuid_text(req.event_id)).unwrap();
            let post = report_effect(pre, config, req, now, attempt_id, scaled_ms);
            match position(post.circuit_keys(), pre.events[i].endpoint_id) {
                Some(k) => post.circuits[k].state == TargetCircuitStatus::Closed.text()
                    && post.circuits[k].consecutive_failures == 0 && post.circuits[k].open_until
                    is None,
                None => true,
            }
        }),
{
    lemma_position(pre.event_ids(), uuid_text(req.event_id));
    let i = position(pre.event_ids(), uuid_text(req.event_id)).unwrap();
    let endpoint_id = pre.events[i].endpoint_id;
    let post = report_effect(pre, config, req, now, attempt_id, scaled_ms);
    lemma_position(pre.circuit_keys(), endpoint_id);
    assert(post.circuit_keys() =~= pre.circuit_keys());
    lemma_position(post.circuit_keys(), endpoint_id);
}

/// One call of `Store::lease`, as the store sees it.
pub struct LeaseCall {
    pub worker: Seq<char>,
    pub limit: int,
    pub now: Seq<char>,
    pub until: Seq<char>,
}

/// The call took the events at `picks` from `pre` and left `post`.
pub open spec fn lease_step(
    pre: StoreView,
    call: LeaseCall,
    picks: Seq<int>,
    post: StoreView,
) -> bool {
    &&& is_lease_selection(pre.swept(call.now), call.now, call.limit, picks)
    &&& post == pre.swept(call.now).claimed(picks, call.worker, call.until)
}

/// The calls were made one after the other, nothing else touching the store
/// in between: call `i` found `stores[i]`, took the events at `picks[i]` and
/// left `stores[i + 1]`.
pub open spec fn lease_run(
    stores: Seq<StoreView>,
    calls: Seq<LeaseCall>,
    picks: Seq<Seq<int>>,
) -> bool {
    &&& stores.len() == calls.len() + 1
    &&& picks.len() == calls.len()
    &&& forall|i: int|
        0 <= i < calls.len() ==> lease_step(
            stores[i],
            #[trigger] calls[i],
            picks[i],
            stores[i + 1],
        )
}

/// The leases run side by side: each is still running when any later call
/// is made.
pub open spec fn leases_overlap(calls: Seq<LeaseCall>) -> bool {
    forall|i: int, j: int|
        0 <= i < j < calls.len() ==> text_lt((#[trigger] calls[j]).now, (#[trigger] calls[i]).until)
}

/// A lease keeps the tables well-formed and every event under its id.
pub proof fn lemma_lease_step_keeps_ids(
    pre: StoreView,
    call: LeaseCall,
    picks: Seq<int>,
    post: StoreView,
)
    requires
        pre.wf(),
        lease_step(pre, call, picks, post),
    ensures
        post.wf(),
        post.events.len() == pre.events.len(),
        post.event_ids() == pre.event_ids(),
        post.circuit_keys() == pre.circuit_keys(),
{
    let swept = pre.swept(call.now);
    assert(pre.same_keys(swept));
    lemma_same_keys_wf(pre, swept);
    assert(swept.same_keys(post));
    lemma_same_keys_wf(swept, post);
}

/// A lease leaves alone what is under a running lease: an event in flight
/// whose lease runs beyond the time of the call is not taken and not changed.
pub proof fn lemma_running_lease_is_kept(
    pre: StoreView,
    call: LeaseCall,
    picks: Seq<int>,
    post: StoreView,
    p: int,
    until: Seq<char>,
)
    requires
        lease_step(pre, call, picks, post),
        0 <= p < pre.events.len(),
        pre.events[p].status == WebhookEventStatus::InFlight.text(),
        pre.events[p].lease_expires_at == Some(until),
        text_lt(call.now, until),
    ensures
        !picks.contains(p),
        post.events[p] == pre.events[p],
{
    let swept = pre.swept(call.now);
    if text_le(until, call.now) {
        lemma_text_le_antisym(until, call.now);
    }
    assert(swept.events[p] == pre.events[p]);
    lemma_status_texts_differ(WebhookEventStatus::InFlight, WebhookEventStatus::Pending);
    lemma_status_texts_differ(WebhookEventStatus::InFlight, WebhookEventStatus::Requeued);
    assert(!eligible(swept, p, call.now));
    if picks.contains(p) {
        let k = choose|k: int| 0 <= k < picks.len() && picks[k] == p;
        assert(eligible(swept, picks[k], call.now));
    }
}

proof fn lemma_lease_run_keeps_ids(
    stores: Seq<StoreView>,
    calls: Seq<LeaseCall>,
    picks: Seq<Seq<int>>,
    m: int,
)
    requires
        stores[0].wf(),
        lease_run(stores, calls, picks),
        0 <= m <= calls.len(),
    ensures
        stores[m].wf(),
        stores[m].events.len() == stores[0].events.len(),
        stores[m].event_ids() == stores[0].event_ids(),
    decreases m,
{
    if m > 0 {
        lemma_lease_run_keeps_ids(stores, calls, picks, m - 1);
        assert(lease_step(stores[m - 1], calls[m - 1], picks[m - 1], stores[m]));
        lemma_lease_step_keeps_ids(stores[m - 1], calls[m - 1], picks[m - 1], stores[m]);
    }
}

proof fn lemma_lease_outlasts_run(
    stores: Seq<StoreView>,
    calls: Seq<LeaseCall>,
    picks: Seq<Seq<int>>,
    i: int,
    a: int,
    m: int,
)
    requires
        stores[0].wf(),
        lease_run(stores, calls, picks),
        leases_overlap(calls),
        0 <= i < m <= calls.len(),
        0 <= a < picks[i].len(),
    ensures
        0 <= picks[i][a] < stores[m].events.len(),
        stores[m].events[picks[i][a]].status == WebhookEventStatus::InFlight.text(),
        stores[m].events[picks[i][a]].lease_expires_at == Some(calls[i].until),
        forall|j: int| i < j < m ==> !(#[trigger] picks[j]).contains(picks[i][a]),
    decreases m - i,
{
    let p = picks[i][a];
    lemma_lease_run_keeps_ids(stores, calls, picks, i);
    lemma_lease_run_keeps_ids(stores, calls, picks, m);
    assert(lease_step(stores[i], calls[i], picks[i], stores[i + 1]));
    if m == i + 1 {
        assert(picks[i].contains(p));
    } else {
        lemma_lease_outlasts_run(stores, calls, picks, i, a, m - 1);
        lemma_lease_run_keeps_ids(stores, calls, picks, m - 1);
        assert(lease_step(stores[m - 1], calls[m - 1], picks[m - 1], stores[m]));
        lemma_running_lease_is_kept(
            stores[m - 1],
            calls[m - 1],
            picks[m - 1],
            stores[m],
            p,
            calls[i].until,
        );
    }
}

/// No event is leased twice while its lease runs. Of leases made one after
/// the other, each still running when the later ones are made, no two hand
/// out the same event, and none hands out an event twice: all the events
/// handed out are different events.
pub proof fn lemma_leases_share_no_event(
    stores: Seq<StoreView>,
    calls: Seq<LeaseCall>,
    picks: Seq<Seq<int>>,
    i: int,
    a: int,
    j: int,
    b: int,
)
    requires
        stores[0].wf(),
        lease_run(stores, calls, picks),
        leases_overlap(calls),
        0 <= i <= j < calls.len(),
        0 <= a < picks[i].len(),
        0 <= b < picks[j].len(),
        i != j || a != b,
    ensures
        0 <= picks[i][a] < stores[0].events.len(),
        0 <= picks[j][b] < stores[0].events.len(),
        picks[i][a] != picks[j][b],
        stores[0].events[picks[i][a]].id != stores[0].events[picks[j][b]].id,
{
    lemma_lease_run_keeps_ids(stores, calls, picks, i);
    lemma_lease_run_keeps_ids(stores, calls, picks, j);
    assert(lease_step(stores[i], calls[i], picks[i], stores[i + 1]));
    assert(lease_step(stores[j], calls[j], picks[j], stores[j + 1]));
    let p = picks[i][a];
    let q = picks[j][b];
    if i == j {
        let swept = stores[i].swept(calls[i].now);
        if a < b {
            lemma_key_lt_asym(
                lease_key(swept, picks[i][a]),
                lease_key(swept, picks[i][b]),
            );
        } else {
            lemma_key_lt_asym(
                lease_key(swept, picks[i][b]),
                lease_key(swept, picks[i][a]),
            );
        }
    } else {
        lemma_lease_outlasts_run(stores, calls, picks, i, a, j);
        lemma_running_lease_is_kept(stores[j], calls[j], picks[j], stores[j + 1], p, calls[i].until);
        assert(picks[j][b] == q);
    }
    assert(p != q);
    let ids = stores[0].event_ids();
    if p < q {
        assert(ids[p] != ids[q]);
    } else {
        assert(ids[q] != ids[p]);
    }
}

/// What is leased was there to be leased. An event that a lease takes was,
/// when the call was made, pending, requeued, or in flight under a lease
/// that had run out; its next attempt was due; no lease on it was still
/// running; and the circuit of its endpoint was absent, closed, or open with
/// its cooldown over. The lease leaves it in flight under the worker's name.
pub proof fn lemma_leased_was_eligible(
    pre: StoreView,
    call: LeaseCall,
    picks: Seq<int>,
    post: StoreView,
    k: int,
)
    requires
        pre.wf(),
        lease_step(pre, call, picks, post),
        0 <= k < picks.len(),
    ensures
        0 <= picks[k] < pre.events.len(),
        ({
            let e = pre.events[picks[k]];
            &&& e.status == WebhookEventStatus::Pending.text() || e.status
                == WebhookEventStatus::Requeued.text() || lease_lapsed(e, call.now)
            &&& e.next_attempt_at matches Some(due) ==> text_le(due, call.now)
            &&& e.lease_expires_at matches Some(until) ==> text_le(until, call.now)
            &&& match position(pre.circuit_keys(), e.endpoint_id) {
                None => true,
                Some(c) => pre.circuits[c].state == TargetCircuitStatus::Closed.text()
                    || cooled_down(pre.circuits[c], call.now),
            }
        }),
        post.events[picks[k]].status == WebhookEventStatus::InFlight.text(),
        post.events[picks[k]].leased_by == Some(call.worker),
        post.events[picks[k]].lease_expires_at == Some(call.until),
{
    let swept = pre.swept(call.now);
    let p = picks[k];
    assert(eligible(swept, p, call.now));
    assert(picks.contains(p));
    lemma_status_texts_differ(WebhookEventStatus::InFlight, WebhookEventStatus::Pending);
    lemma_status_texts_differ(WebhookEventStatus::InFlight, WebhookEventStatus::Requeued);
    assert(swept.circuit_keys() =~= pre.circuit_keys());
    lemma_position(pre.circuit_keys(), pre.events[p].endpoint_id);
}

proof fn lemma_lease_selections_agree(
    store: StoreView,
    now: Seq<char>,
    limit: int,
    a: Seq<int>,
    b: Seq<int>,
    k: int,
)
    requires
        is_lease_selection(store, now, limit, a),
        is_lease_selection(store, now, limit, b),
        0 <= k < a.len(),
        k < b.len(),
    ensures
        a[k] == b[k],
    decreases k,
{
    assert forall|j: int| 0 <= j < k implies a[j] == b[j] by {
        lemma_lease_selections_agree(store, now, limit, a, b, j);
    }
    assert(eligible(store, a[k], now) && eligible(store, b[k], now));
    if a[k] != b[k] {
        if b.contains(a[k]) {
            let m = choose|m: int| 0 <= m < b.len() && b[m] == a[k];
            if m < k {
                assert(a[m] == b[m]);
                lemma_key_lt_asym(lease_key(store, a[m]), lease_key(store, a[k]));
            }
            assert(leased_before(store, b[k], b[m]));
        } else {
            assert(leased_before(store, b[k], a[k]));
        }
        if a.contains(b[k]) {
            let n = choose|n: int| 0 <= n < a.len() && a[n] == b[k];
            if n < k {
                assert(a[n] == b[n]);
                lemma_key_lt_asym(lease_key(store, b[n]), lease_key(store, b[k]));
            }
            assert(leased_before(store, a[k], a[n]));
        } else {
            assert(leased_before(store, a[k], b[k]));
        }
        lemma_key_lt_asym(lease_key(store, a[k]), lease_key(store, b[k]));
    }
}

/// A lease is decided by the store, the time and the limit: the events it
/// takes, and the order it takes them in, are one sequence and no other.
pub proof fn lemma_lease_selection_is_unique(
    store: StoreView,
    now: Seq<char>,
    limit: int,
    a: Seq<int>,
    b: Seq<int>,
)
    requires
        is_lease_selection(store, now, limit, a),
        is_lease_selection(store, now, limit, b),
    ensures
        a == b,
{
    assert forall|k: int| 0 <= k < a.len() && k < b.len() implies a[k] == b[k] by {
        lemma_lease_selections_agree(store, now, limit, a, b, k);
    }
    if a.len() < b.len() {
        let extra = b[a.len() as int];
        assert(eligible(store, extra, now));
        if a.contains(extra) {
            let m = choose|m: int| 0 <= m < a.len() && a[m] == extra;
            assert(b[m] == a[m]);
            lemma_key_lt_asym(lease_key(store, b[m]), lease_key(store, b[a.len() as int]));
        }
    }
    if b.len() < a.len() {
        let extra = a[b.len() as int];
        assert(eligible(store, extra, now));
        if b.contains(extra) {
            let m = choose|m: int| 0 <= m < b.len() && b[m] == extra;
            assert(b[m] == a[m]);
            lemma_key_lt_asym(lease_key(store, a[m]), lease_key(store, a[b.len() as int]));
        }
    }
    assert(a =~= b);
}

/// A lease leaves the leases in order: what it takes back has no lease, and
/// what it hands out has one.
pub proof fn lemma_lease_keeps_leases_in_order(
    pre: StoreView,
    call: LeaseCall,
    picks: Seq<int>,
    post: StoreView,
)
    requires
        pre.leases_in_order(),
        lease_step(pre, call, picks, post),
    ensures
        post.leases_in_order(),
{
    let swept = pre.swept(call.now);
    lemma_status_texts_differ(WebhookEventStatus::InFlight, WebhookEventStatus::Requeued);
    lemma_status_texts_differ(WebhookEventStatus::InFlight, WebhookEventStatus::Delivered);
    lemma_status_texts_differ(WebhookEventStatus::InFlight, WebhookEventStatus::Dead);
    lemma_status_texts_differ(WebhookEventStatus::Requeued, WebhookEventStatus::Delivered);
    lemma_status_texts_differ(WebhookEventStatus::Requeued, WebhookEventStatus::Dead);
    assert forall|i: int| 0 <= i < post.events.len() implies {
        let e = #[trigger] post.events[i];
        &&& e.status == WebhookEventStatus::InFlight.text() ==> e.leased_by is Some
            && e.lease_expires_at is Some
        &&& e.status == WebhookEventStatus::Delivered.text() || e.status
            == WebhookEventStatus::Dead.text() ==> e.leased_by is None && e.lease_expires_at is None
            && e.next_attempt_at is None
    } by {
        let was = pre.events[i];
        assert(swept.events[i] == if lease_lapsed(was, call.now) {
            crate::dispatcher::lease::requeued(was)
        } else {
            was
        });
    }
}

/// Where a listing puts one event before another: it was received later, or
/// at the same time under the larger id.
pub proof fn lemma_listing_order(store: StoreView, i: int, j: int)
    requires
        store.wf(),
        0 <= i < store.events.len(),
        0 <= j < store.events.len(),
        i != j,
    ensures
        key_lt(list_key(store, i), list_key(store, j)) == (text_lt(
            store.events[i].received_at,
            store.events[j].received_at,
        ) || (store.events[i].received_at == store.events[j].received_at && text_lt(
            store.events[i].id,
            store.events[j].id,
        ))),
{
    let ids = store.event_ids();
    if i < j {
        assert(ids[i] != ids[j]);
    } else {
        assert(ids[j] != ids[i]);
    }
}

proof fn lemma_listings_agree(
    store: StoreView,
    params: ListEventsParamsView,
    a: Seq<int>,
    b: Seq<int>,
    k: int,
)
    requires
        is_listing(store, params, a),
        is_listing(store, params, b),
        0 <= k < a.len(),
        k < b.len(),
    ensures
        a[k] == b[k],
    decreases k,
{
    assert forall|j: int| 0 <= j < k implies a[j] == b[j] by {
        lemma_listings_agree(store, params, a, b, j);
    }
    assert(listed(store.events[a[k]], params));
    assert(b.contains(a[k]));
    let m = choose|m: int| 0 <= m < b.len() && b[m] == a[k];
    assert(listed(store.events[b[k]], params));
    assert(a.contains(b[k]));
    let n = choose|n: int| 0 <= n < a.len() && a[n] == b[k];
    if m < k {
        assert(a[m] == b[m]);
        lemma_key_lt_asym(list_key(store, a[k]), list_key(store, a[m]));
    } else if n < k {
        assert(a[n] == b[n]);
        lemma_key_lt_asym(list_key(store, b[k]), list_key(store, b[n]));
    } else if m > k && n > k {
        assert(key_lt(list_key(store, b[m]), list_key(store, b[k])));
        assert(key_lt(list_key(store, a[n]), list_key(store, a[k])));
        lemma_key_lt_asym(list_key(store, b[m]), list_key(store, b[k]));
    }
}

/// Asked again, a listing is the same: the events that match, in their
/// order, are one sequence and no other.
pub proof fn lemma_listing_is_unique(
    store: StoreView,
    params: ListEventsParamsView,
    a: Seq<int>,
    b: Seq<int>,
)
    requires
        is_listing(store, params, a),
        is_listing(store, params, b),
    ensures
        a == b,
{
    assert forall|k: int| 0 <= k < a.len() && k < b.len() implies a[k] == b[k] by {
        lemma_listings_agree(store, params, a, b, k);
    }
    if a.len() < b.len() {
        let extra = b[a.len() as int];
        assert(listed(store.events[extra], params));
        assert(a.contains(extra));
        let m = choose|m: int| 0 <= m < a.len() && a[m] == extra;
        assert(b[m] == a[m]);
        lemma_key_lt_asym(list_key(store, b[a.len() as int]), list_key(store, b[m]));
    }
    if b.len() < a.len() {
        let extra = a[b.len() as int];
        assert(listed(store.events[extra], params));
        assert(b.contains(extra));
        let m = choose|m: int| 0 <= m < b.len() && b[m] == extra;
        assert(b[m] == a[m]);
        lemma_key_lt_asym(list_key(store, a[b.len() as int]), list_key(store, a[m]));
    }
    assert(a =~= b);
}

/// The next page goes on where a page ends. Take the listing that some
/// filters and a place to start give, and a cursor at its line `limit`, the
/// last of a page. Then the listing that the same filters give from that
/// cursor on is the rest of the first listing: what the page showed is not
/// shown again, and nothing between the pages is left out.
///
/// The cursor names its event by number, and the store compares ids as text:
/// the law is for an event whose id is stored the way `uuid_text` writes it.
pub proof fn lemma_next_page_continues(
    store: StoreView,
    params: ListEventsParamsView,
    order: Seq<int>,
    limit: int,
    cursor: InspectorCursorView,
    next: Seq<int>,
)
    requires
        store.wf(),
        is_listing(store, params, order),
        0 < limit <= order.len(),
        cursor.received_at == store.events[order[limit - 1]].received_at,
        uuid_text(cursor.id) == store.events[order[limit - 1]].id,
        is_listing(store, ListEventsParamsView { before: Some(cursor), ..params }, next),
    ensures
        next == order.subrange(limit, order.len() as int),
{
    let onward = ListEventsParamsView { before: Some(cursor), ..params };
    let rest = order.subrange(limit, order.len() as int);
    let last = order[limit - 1];
    assert forall|k: int| 0 <= k < rest.len() implies 0 <= #[trigger] rest[k]
        < store.events.len() && listed(store.events[rest[k]], onward) by {
        assert(rest[k] == order[limit + k]);
        assert(key_lt(list_key(store, order[limit + k]), list_key(store, order[limit - 1])));
        lemma_key_lt_asym(list_key(store, order[limit + k]), list_key(store, order[limit - 1]));
        lemma_listing_order(store, order[limit + k], last);
    }
    assert forall|j: int, k: int| 0 <= j < k < rest.len() implies key_lt(
        list_key(store, #[trigger] rest[k]),
        list_key(store, #[trigger] rest[j]),
    ) by {
        assert(rest[k] == order[limit + k] && rest[j] == order[limit + j]);
    }
    assert forall|i: int|
        0 <= i < store.events.len() && listed(
            #[trigger] store.events[i],
            onward,
        ) implies rest.contains(i) by {
        let e = store.events[i];
        if i == last {
            assert(false);
        }
        lemma_listing_order(store, i, last);
        assert(key_lt(list_key(store, i), list_key(store, last)));
        assert(listed(e, params)) by {
            if let Some(start) = params.before {
                assert(listed(store.events[last], params));
                lemma_after_cursor_trans(e, store.events[last], start);
            }
        }
        assert(order.contains(i));
        let m = choose|m: int| 0 <= m < order.len() && order[m] == i;
        if m < limit - 1 {
            assert(key_lt(list_key(store, order[limit - 1]), list_key(store, order[m])));
            lemma_key_lt_asym(list_key(store, i), list_key(store, last));
        }
        assert(m >= limit);
        assert(rest[m - limit] == i);
    }
    lemma_listing_is_unique(store, onward, next, rest);
}

/// An event that comes after an event that comes after a cursor comes after
/// the cursor.
proof fn lemma_after_cursor_trans(e: EventRowView, mid: EventRowView, cursor: InspectorCursorView)
    requires
        text_lt(e.received_at, mid.received_at) || (e.received_at == mid.received_at && text_lt(
            e.id,
            mid.id,
        )),
        after_cursor(mid, cursor),
    ensures
        after_cursor(e, cursor),
{
    let a = SortKeyView { major: e.received_at, minor: e.id, number: 0, position: 0 };
    let b = SortKeyView { major: mid.received_at, minor: mid.id, number: 0, position: 0 };
    let c = SortKeyView {
        major: cursor.received_at,
        minor: uuid_text(cursor.id),
        number: 0,
        position: 0,
    };
    assert(key_lt(a, b));
    assert(key_lt(b, c));
    lemma_key_lt_trans(a, b, c);
}

/// A replay leaves the leases in order: the event it adds is pending.
pub proof fn lemma_replay_keeps_leases_in_order(
    pre: StoreView,
    event_id: u128,
    reset_circuit: bool,
    now: Timestamp,
    new_event_id: u128,
)
    requires
        pre.leases_in_order(),
        replay_refusal(pre, event_id, now, new_event_id) is None,
    ensures
        replay_effect(pre, event_id, reset_circuit, new_event_id).leases_in_order(),
{
    let post = replay_effect(pre, event_id, reset_circuit, new_event_id);
    lemma_position(pre.event_ids(), uuid_text(event_id));
    lemma_status_texts_differ(WebhookEventStatus::Pending, WebhookEventStatus::InFlight);
    lemma_status_texts_differ(WebhookEventStatus::Pending, WebhookEventStatus::Delivered);
    lemma_status_texts_differ(WebhookEventStatus::Pending, WebhookEventStatus::Dead);
    assert forall|i: int| 0 <= i < post.events.len() implies {
        let e = #[trigger] post.events[i];
        &&& e.status == WebhookEventStatus::InFlight.text() ==> e.leased_by is Some
            && e.lease_expires_at is Some
        &&& e.status == WebhookEventStatus::Delivered.text() || e.status
            == WebhookEventStatus::Dead.text() ==> e.leased_by is None && e.lease_expires_at is None
            && e.next_attempt_at is None
    } by {
        if i < pre.events.len() {
            assert(post.events[i] == pre.events[i]);
        }
    }
}

/// A replay never changes the event it replays, nor any other event that was
/// there: it adds one event and leaves the log of attempts alone.
pub proof fn lemma_replay_leaves_source(
    pre: StoreView,
    event_id: u128,
    reset_circuit: bool,
    now: Timestamp,
    new_event_id: u128,
)
    requires
        replay_refusal(pre, event_id, now, new_event_id) is None,
    ensures
        ({
            let post = replay_effect(pre, event_id, reset_circuit, new_event_id);
            &&& post.events.len() == pre.events.len() + 1
            &&& forall|i: int| 0 <= i < pre.events.len() ==> post.events[i] == pre.events[i]
            &&& post.attempts == pre.attempts
            &&& post.endpoints == pre.endpoints
        }),
{
}

/// How many of the first `n` rows of the log are attempts on the event `id`.
pub open spec fn logged_attempts(log: Seq<AttemptRowView>, id: Seq<char>, n: int) -> int
    decreases n,
{
    if n <= 0 {
        0
    } else {
        logged_attempts(log, id, n - 1) + if log[n - 1].event_id == id {
            1int
        } else {
            0int
        }
    }
}

impl StoreView {
    /// Every event counts as many attempts as the log holds for it, and
    /// every row of the log is an attempt on an event that is there.
    pub open spec fn attempts_are_logged(self) -> bool {
        &&& forall|i: int|
            0 <= i < self.events.len() ==> (#[trigger] self.events[i]).attempts == logged_attempts(
                self.attempts,
                self.events[i].id,
                self.attempts.len() as int,
            )
        &&& forall|k: int|
            0 <= k < self.attempts.len() ==> position(
                self.event_ids(),
                (#[trigger] self.attempts[k]).event_id,
            ) is Some
    }
}

proof fn lemma_logged_attempts_of_prefix(
    log: Seq<AttemptRowView>,
    longer: Seq<AttemptRowView>,
    id: Seq<char>,
    n: int,
)
    requires
        0 <= n <= log.len() <= longer.len(),
        forall|k: int| 0 <= k < log.len() ==> log[k] == longer[k],
    ensures
        logged_attempts(longer, id, n) == logged_attempts(log, id, n),
    decreases n,
{
    if n > 0 {
        lemma_logged_attempts_of_prefix(log, longer, id, n - 1);
    }
}

proof fn lemma_no_attempts_logged(log: Seq<AttemptRowView>, id: Seq<char>, n: int)
    requires
        0 <= n <= log.len(),
        forall|k: int| 0 <= k < log.len() ==> (#[trigger] log[k]).event_id != id,
    ensures
        logged_attempts(log, id, n) == 0,
    decreases n,
{
    if n > 0 {
        lemma_no_attempts_logged(log, id, n - 1);
    }
}

/// A report that goes through keeps count: afterwards every event still
/// counts as many attempts as the log holds for it.
pub proof fn lemma_report_keeps_attempts_logged(
    pre: StoreView,
    config: DispatcherConfig,
    req: ReportRequestView,
    now: Timestamp,
    attempt_id: u128,
    scaled_ms: u64,
)
    requires
        pre.wf(),
        report_in_reach(pre, config, req, now, scaled_ms),
        pre.attempts_are_logged(),
        report_refusal(pre, config, req, now) is None,
    ensures
        report_effect(pre, config, req, now, attempt_id, scaled_ms).attempts_are_logged(),
{
    lemma_position(pre.event_ids(), uuid_text(req.event_id));
    let i = position(pre.event_ids(), uuid_text(req.event_id)).unwrap();
    let post = report_effect(pre, config, req, now, attempt_id, scaled_ms);
    let n = pre.attempts.len() as int;
    assert(post.event_ids() =~= pre.event_ids());
    assert forall|j: int| 0 <= j < post.events.len() implies (#[trigger] post.events[j]).attempts
        == logged_attempts(post.attempts, post.events[j].id, post.attempts.len() as int) by {
        lemma_logged_attempts_of_prefix(pre.attempts, post.attempts, post.events[j].id, n);
        if j != i {
            assert(post.events[j] == pre.events[j]);
            let ids = pre.event_ids();
            if j < i {
                assert(ids[j] != ids[i]);
            } else {
                assert(ids[i] != ids[j]);
            }
        }
    }
    assert forall|k: int| 0 <= k < post.attempts.len() implies position(
        post.event_ids(),
        (#[trigger] post.attempts[k]).event_id,
    ) is Some by {
        if k < n {
            assert(post.attempts[k] == pre.attempts[k]);
        }
    }
}

/// A replay keeps count: the event it adds has no attempts, and none are
/// logged for it.
pub proof fn lemma_replay_keeps_attempts_logged(
    pre: StoreView,
    event_id: u128,
    reset_circuit: bool,
    now: Timestamp,
    new_event_id: u128,
)
    requires
        pre.wf(),
        pre.attempts_are_logged(),
        replay_refusal(pre, event_id, now, new_event_id) is None,
    ensures
        replay_effect(pre, event_id, reset_circuit, new_event_id).attempts_are_logged(),
{
    let post = replay_effect(pre, event_id, reset_circuit, new_event_id);
    let new_id = uuid_text(new_event_id);
    let n = pre.events.len() as int;
    lemma_position(pre.event_ids(), uuid_text(event_id));
    lemma_position(pre.event_ids(), new_id);
    assert(post.event_ids() =~= pre.event_ids().push(new_id));
    assert forall|k: int| 0 <= k < pre.attempts.len() implies (#[trigger] pre.attempts[k]).event_id
        != new_id by {
        lemma_position(pre.event_ids(), pre.attempts[k].event_id);
    }
    lemma_no_attempts_logged(pre.attempts, new_id, pre.attempts.len() as int);
    assert forall|j: int| 0 <= j < post.events.len() implies (#[trigger] post.events[j]).attempts
        == logged_attempts(post.attempts, post.events[j].id, post.attempts.len() as int) by {
        if j < n {
            assert(post.events[j] == pre.events[j]);
        }
    }
    assert forall|k: int| 0 <= k < post.attempts.len() implies position(
        post.event_ids(),
        (#[trigger] post.attempts[k]).event_id,
    ) is Some by {
        let at = position(pre.event_ids(), pre.attempts[k].event_id).unwrap();
        lemma_position(pre.event_ids(), pre.attempts[k].event_id);
        lemma_position(post.event_ids(), post.attempts[k].event_id);
        assert(post.event_ids()[at] == pre.attempts[k].event_id);
    }
}

/// A lease keeps count: it changes no count and logs nothing.
pub proof fn lemma_lease_keeps_attempts_logged(
    pre: StoreView,
    call: LeaseCall,
    picks: Seq<int>,
    post: StoreView,
)
    requires
        pre.wf(),
        pre.attempts_are_logged(),
        lease_step(pre, call, picks, post),
    ensures
        post.attempts_are_logged(),
{
    lemma_lease_step_keeps_ids(pre, call, picks, post);
    let swept = pre.swept(call.now);
    assert forall|i: int| 0 <= i < post.events.len() implies (#[trigger] post.events[i]).attempts
        == logged_attempts(post.attempts, post.events[i].id, post.attempts.len() as int) by {
        assert(swept.events[i].attempts == pre.events[i].attempts);
        assert(swept.events[i].id == pre.events[i].id);
        assert(pre.events[i].attempts == logged_attempts(
            pre.attempts,
            pre.events[i].id,
            pre.attempts.len() as int,
        ));
    }
    assert forall|k: int| 0 <= k < post.attempts.len() implies position(
        post.event_ids(),
        (#[trigger] post.attempts[k]).event_id,
    ) is Some by {
        assert(post.attempts[k] == pre.attempts[k]);
    }
}

/// What a leased event says of itself is read from its row.
proof fn lemma_leased_event_reads_row(row: JoinedEventView, leased: LeasedEventView)
    requires
        leased_event_of(row) == Ok::<LeasedEventView, StoreErrorView>(leased),
    ensures
        uuid_from_text(row.event.id) == Ok::<u128, Seq<char>>(leased.event.id),
        WebhookEventStatus::from_text(row.event.status) == Some(leased.event.status),
        leased.event.leased_by == row.event.leased_by,
        leased.event.lease_expires_at == row.event.lease_expires_at,
{
}

/// Every event that a lease hands out was there to be leased. The event at
/// place `k` of the answer is read from the row the lease took at place `k`;
/// before the call that row was pending, requeued, or in flight under a
/// lease that had run out, and so neither delivered, dead nor paused; its
/// next attempt was due; no lease on it was still running; and the circuit of
/// its endpoint was absent, closed, or open with its cooldown over.
pub proof fn lemma_leased_events_were_eligible(
    pre: StoreView,
    call: LeaseCall,
    picks: Seq<int>,
    post: StoreView,
    leased: Vec<LeasedEvent>,
    k: int,
)
    requires
        pre.wf(),
        lease_outcome(
            pre,
            call.worker,
            call.limit,
            call.now,
            call.until,
            picks,
            post,
            Ok::<Vec<LeasedEvent>, StoreError>(leased),
        ),
        0 <= k < leased.len(),
    ensures
        picks.len() == leased.len(),
        0 <= picks[k] < pre.events.len(),
        uuid_from_text(pre.events[picks[k]].id) == Ok::<u128, Seq<char>>(leased[k]@.event.id),
        leased[k]@.event.status == WebhookEventStatus::InFlight,
        leased[k]@.event.leased_by == Some(call.worker),
        leased[k]@.event.lease_expires_at == Some(call.until),
        ({
            let p = pre.events[picks[k]];
            &&& p.status == WebhookEventStatus::Pending.text() || p.status
                == WebhookEventStatus::Requeued.text() || (p.status
                == WebhookEventStatus::InFlight.text() && lease_lapsed(p, call.now))
            &&& p.status != WebhookEventStatus::Delivered.text()
            &&& p.status != WebhookEventStatus::Dead.text()
            &&& p.status != WebhookEventStatus::Paused.text()
            &&& p.next_attempt_at matches Some(due) ==> text_le(due, call.now)
            &&& p.lease_expires_at matches Some(until) ==> text_le(until, call.now)
            &&& match position(pre.circuit_keys(), p.endpoint_id) {
                None => true,
                Some(c) => pre.circuits[c].state == TargetCircuitStatus::Closed.text()
                    || cooled_down(pre.circuits[c], call.now),
            }
        }),
{
    assert(lease_step(pre, call, picks, post));
    lemma_leased_was_eligible(pre, call, picks, post, k);
    lemma_lease_step_keeps_ids(pre, call, picks, post);
    let rows = leased_rows(post, picks);
    assert(rows[k] == post.joined_event(picks[k]));
    lemma_leased_event_reads_row(rows[k], leased[k]@);
    assert(post.event_ids()[picks[k]] == pre.event_ids()[picks[k]]);
    WebhookEventStatus::InFlight.lemma_text_round_trip();
    lemma_status_texts_differ(WebhookEventStatus::Pending, WebhookEventStatus::Delivered);
    lemma_status_texts_differ(WebhookEventStatus::Pending, WebhookEventStatus::Dead);
    lemma_status_texts_differ(WebhookEventStatus::Pending, WebhookEventStatus::Paused);
    lemma_status_texts_differ(WebhookEventStatus::Requeued, WebhookEventStatus::Delivered);
    lemma_status_texts_differ(WebhookEventStatus::Requeued, WebhookEventStatus::Dead);
    lemma_status_texts_differ(WebhookEventStatus::Requeued, WebhookEventStatus::Paused);
    lemma_status_texts_differ(WebhookEventStatus::InFlight, WebhookEventStatus::Delivered);
    lemma_status_texts_differ(WebhookEventStatus::InFlight, WebhookEventStatus::Dead);
    lemma_status_texts_differ(WebhookEventStatus::InFlight, WebhookEventStatus::Paused);
}

/// Two leases hand out different events. Of two leases made one after the
/// other on a store whose events are stored under their ids as written, the
/// first still running when the second is made, neither hands out an event
/// twice and no event is handed out by both: the ids in the two answers are
/// all different, so that together the answers hold as many ids as events.
pub proof fn lemma_two_leases_hand_out_different_events(
    pre: StoreView,
    first: LeaseCall,
    first_picks: Seq<int>,
    first_leased: Vec<LeasedEvent>,
    mid: StoreView,
    second: LeaseCall,
    second_picks: Seq<int>,
    second_leased: Vec<LeasedEvent>,
    post: StoreView,
)
    requires
        pre.wf(),
        pre.event_ids_as_written(),
        lease_outcome(
            pre,
            first.worker,
            first.limit,
            first.now,
            first.until,
            first_picks,
            mid,
            Ok::<Vec<LeasedEvent>, StoreError>(first_leased),
        ),
        lease_outcome(
            mid,
            second.worker,
            second.limit,
            second.now,
            second.until,
            second_picks,
            post,
            Ok::<Vec<LeasedEvent>, StoreError>(second_leased),
        ),
        text_lt(second.now, first.until),
    ensures
        forall|j: int, k: int|
            0 <= j < k < first_leased.len() ==> (#[trigger] first_leased[j])@.event.id != (
            #[trigger] first_leased[k])@.event.id,
        forall|j: int, k: int|
            0 <= j < k < second_leased.len() ==> (#[trigger] second_leased[j])@.event.id != (
            #[trigger] second_leased[k])@.event.id,
        forall|j: int, k: int|
            0 <= j < first_leased.len() && 0 <= k < second_leased.len() ==> (
            #[trigger] first_leased[j])@.event.id != (#[trigger] second_leased[k])@.event.id,
{
    let stores = seq![pre, mid, post];
    let calls = seq![first, second];
    let picks = seq![first_picks, second_picks];
    assert(lease_step(pre, first, first_picks, mid));
    assert(lease_step(mid, second, second_picks, post));
    assert(lease_run(stores, calls, picks)) by {
        assert forall|i: int| 0 <= i < calls.len() implies lease_step(
            stores[i],
            #[trigger] calls[i],
            picks[i],
            stores[i + 1],
        ) by {
            if i == 0 {
                assert(stores[0] == pre && stores[1] == mid);
            } else {
                assert(stores[1] == mid && stores[2] == post);
            }
        }
    }
    assert(leases_overlap(calls));
    lemma_lease_step_keeps_ids(pre, first, first_picks, mid);
    lemma_lease_step_keeps_ids(mid, second, second_picks, post);
    assert(picks[0] == first_picks && picks[1] == second_picks);
    assert forall|j: int| 0 <= j < first_leased.len() implies 0 <= first_picks[j]
        < pre.events.len() && uuid_from_text(pre.events[first_picks[j]].id) == Ok::<
        u128,
        Seq<char>,
    >((#[trigger] first_leased[j])@.event.id) by {
        lemma_leased_events_were_eligible(pre, first, first_picks, mid, first_leased, j);
    }
    assert forall|k: int| 0 <= k < second_leased.len() implies 0 <= second_picks[k]
        < pre.events.len() && uuid_from_text(pre.events[second_picks[k]].id) == Ok::<
        u128,
        Seq<char>,
    >((#[trigger] second_leased[k])@.event.id) by {
        lemma_leased_events_were_eligible(mid, second, second_picks, post, second_leased, k);
        assert(mid.event_ids()[second_picks[k]] == pre.event_ids()[second_picks[k]]);
    }
    assert(first_picks.len() == first_leased.len()) by {
        if first_leased.len() > 0 {
            lemma_leased_events_were_eligible(pre, first, first_picks, mid, first_leased, 0);
        }
    }
    assert(second_picks.len() == second_leased.len()) by {
        if second_leased.len() > 0 {
            lemma_leased_events_were_eligible(mid, second, second_picks, post, second_leased, 0);
        }
    }
    assert forall|j: int, k: int| 0 <= j < k < first_leased.len() implies (
    #[trigger] first_leased[j])@.event.id != (#[trigger] first_leased[k])@.event.id by {
        lemma_leases_share_no_event(stores, calls, picks, 0, j, 0, k);
        assert(as_written(pre.events[first_picks[j]].id));
        assert(as_written(pre.events[first_picks[k]].id));
    }
    assert forall|j: int, k: int| 0 <= j < k < second_leased.len() implies (
    #[trigger] second_leased[j])@.event.id != (#[trigger] second_leased[k])@.event.id by {
        lemma_leases_share_no_event(stores, calls, picks, 1, j, 1, k);
        assert(as_written(pre.events[second_picks[j]].id));
        assert(as_written(pre.events[second_picks[k]].id));
    }
    assert forall|j: int, k: int|
        0 <= j < first_leased.len() && 0 <= k < second_leased.len() implies (
    #[trigger] first_leased[j])@.event.id != (#[trigger] second_leased[k])@.event.id by {
        lemma_leases_share_no_event(stores, calls, picks, 0, j, 1, k);
        assert(as_written(pre.events[first_picks[j]].id));
        assert(as_written(pre.events[second_picks[k]].id));
    }
}

/// A report that goes through counts and logs one attempt, whatever its
/// outcome. The event has exactly one attempt more than before; the log has
/// exactly one row more, for this event, numbered one above the attempts
/// made before, and holding what the report said of the attempt; and if the
/// counts matched the log before, they match it after.
pub proof fn lemma_served_report_is_counted_and_logged(
    pre: StoreView,
    post: StoreView,
    config: DispatcherConfig,
    req: ReportRequestView,
    now: Timestamp,
    attempt_id: u128,
    scaled_ms: u64,
    r: Result<ReportResult, StoreError>,
)
    requires
        pre.wf(),
        report_in_reach(pre, config, req, now, scaled_ms),
        report_outcome(pre, post, config, req, now, attempt_id, scaled_ms, r),
        r is Ok,
    ensures
        position(pre.event_ids(), uuid_text(req.event_id)) matches Some(i) && {
            let log = post.attempts.last();
            &&& post.events.len() == pre.events.len()
            &&& post.events[i].id == pre.events[i].id
            &&& post.events[i].attempts == pre.events[i].attempts + 1
            &&& post.attempts == pre.attempts.push(log)
            &&& log.event_id == pre.events[i].id
            &&& log.event_id == uuid_text(req.event_id)
            &&& log.attempt_no == pre.events[i].attempts + 1
            &&& log.started_at == req.attempt.started_at
            &&& log.finished_at == req.attempt.finished_at
            &&& log.request_body == req.attempt.request_body
            &&& log.response_status == req.attempt.response_status
            &&& log.response_body == req.attempt.response_body
            &&& log.error_message == req.attempt.error_message
        },
        pre.attempts_are_logged() ==> post.attempts_are_logged(),
{
    lemma_position(pre.event_ids(), uuid_text(req.event_id));
    lemma_report_counts_one_attempt(pre, config, req, now, attempt_id, scaled_ms);
    assert(post.attempts =~= pre.attempts.push(post.attempts.last()));
    if pre.attempts_are_logged() {
        lemma_report_keeps_attempts_logged(pre, config, req, now, attempt_id, scaled_ms);
    }
}

/// A retry beyond the budget is recorded as dead. Where the worker holds the
/// lease and the request and the row can be read, a report of a retry on the
/// attempt that uses up the budget goes through, hands back `Dead`, and
/// leaves the event dead with no next attempt, whether or not the failure is
/// retryable and whatever time the report names for the next attempt.
pub proof fn lemma_exhausted_retry_is_recorded_dead(
    pre: StoreView,
    post: StoreView,
    config: DispatcherConfig,
    req: ReportRequestView,
    now: Timestamp,
    attempt_id: u128,
    scaled_ms: u64,
    r: Result<ReportResult, StoreError>,
    i: int,
)
    requires
        position(pre.event_ids(), uuid_text(req.event_id)) == Some(i),
        lease_refusal(pre.events[i], req.worker_id, now) is None,
        text_map_to_json(req.attempt.request_headers) is Ok,
        response_headers_json(req.attempt.response_headers) is Ok,
        uuid_from_text(pre.events[i].endpoint_id) is Ok,
        req.outcome == ReportOutcome::Retry,
        pre.events[i].attempts + 1 >= config.max_attempts,
        report_outcome(pre, post, config, req, now, attempt_id, scaled_ms, r),
    ensures
        r matches Ok(res) && res.final_outcome == ReportOutcome::Dead,
        post.events.len() == pre.events.len(),
        post.events[i].status == WebhookEventStatus::Dead.text(),
        post.events[i].status != WebhookEventStatus::Pending.text(),
        post.events[i].next_attempt_at is None,
        post.events[i].leased_by is None,
{
    lemma_position(pre.event_ids(), uuid_text(req.event_id));
    lemma_status_texts_differ(WebhookEventStatus::Dead, WebhookEventStatus::Pending);
    assert(report_refusal(pre, config, req, now) is None);
}

/// A settled event takes no further report. Whoever reports on an event that
/// is delivered or dead and leased to nobody, and whatever the report says,
/// is answered with a conflict, and the store stays as it was: the event, the
/// log of attempts and the circuits.
pub proof fn lemma_settled_event_refuses_every_report(
    pre: StoreView,
    post: StoreView,
    config: DispatcherConfig,
    req: ReportRequestView,
    now: Timestamp,
    attempt_id: u128,
    scaled_ms: u64,
    r: Result<ReportResult, StoreError>,
    i: int,
)
    requires
        position(pre.event_ids(), uuid_text(req.event_id)) == Some(i),
        pre.events[i].status == WebhookEventStatus::Delivered.text() || pre.events[i].status
            == WebhookEventStatus::Dead.text(),
        pre.events[i].leased_by is None,
        report_outcome(pre, post, config, req, now, attempt_id, scaled_ms, r),
    ensures
        r matches Err(e) && e@ == StoreErrorView::Conflict("lease_missing"@),
        post == pre,
{
}

/// Adding milliseconds to an instant moves it by that many milliseconds.
pub proof fn lemma_add_millis(now: Timestamp, millis: int)
    requires
        now.can_add_millis(millis),
    ensures
        now.add_millis(millis).as_nanos() == now.as_nanos() + millis * 1_000_000,
        now.add_millis(millis).writable(),
{
}

/// A failure at the threshold is answered with an open circuit. After a
/// retryable failure that brings the failures in a row to the threshold or
/// beyond, the circuit handed back and the circuit row of the endpoint are
/// open, count one failure more than before, and reopen at `now` plus a
/// cooldown that is no less than nothing and no more than
/// `circuit_cooldown_max_ms`.
pub proof fn lemma_failure_at_threshold_is_answered_open(
    pre: StoreView,
    endpoint_id: Seq<char>,
    endpoint: u128,
    config: DispatcherConfig,
    now: Timestamp,
    scaled_ms: u64,
    post: StoreView,
    answer: Option<TargetCircuitStateView>,
)
    requires
        pre.wf(),
        failure_in_reach(pre, endpoint_id, config, now, scaled_ms),
        failures_on_record(pre, endpoint_id) + 1 >= config.circuit_failure_threshold,
        post == pre.with_failure(endpoint_id, config, now, true, scaled_ms),
        answer == failure_snapshot(pre, endpoint_id, endpoint, config, now, true, scaled_ms),
    ensures
        ({
            let failures = failures_on_record(pre, endpoint_id) + 1;
            let cooldown = cooldown_ms(config, failures, scaled_ms);
            let until = now.add_millis(cooldown);
            &&& 0 <= cooldown <= config.circuit_cooldown_max_ms
            &&& until.as_nanos() - now.as_nanos() == cooldown * 1_000_000
            &&& answer matches Some(c) && c.endpoint_id == endpoint && c.state
                == TargetCircuitStatus::Open && c.consecutive_failures == failures
                && c.open_until == Some(until.text()) && c.last_failure_at == Some(now.text())
            &&& position(post.circuit_keys(), endpoint_id) matches Some(k)
                && post.circuits[k].state == TargetCircuitStatus::Open.text()
                && post.circuits[k].consecutive_failures == failures && post.circuits[k].open_until
                == Some(until.text()) && post.circuits[k].last_failure_at == Some(now.text())
        }),
{
    let failures = failures_on_record(pre, endpoint_id) + 1;
    lemma_threshold_opens_circuit(pre, endpoint_id, config, now, scaled_ms);
    lemma_add_millis(now, cooldown_ms(config, failures, scaled_ms));
    TargetCircuitStatus::Open.lemma_text_round_trip();
    TargetCircuitStatus::Closed.lemma_text_round_trip();
}

/// What a line of a listing says of its event is read from the event's row.
proof fn lemma_list_item_reads_row(row: JoinedEventView)
    requires
        list_item_of_row(row) is Ok,
    ensures
        ({
            let pair = list_item_of_row(row)->Ok_0;
            &&& uuid_from_text(row.event.id) == Ok::<u128, Seq<char>>(pair.0.event.id)
            &&& pair.0.event.received_at == row.event.received_at
            &&& pair.1.id == pair.0.event.id
            &&& pair.1.received_at == row.event.received_at
        }),
{
}

/// A listing is the same whatever the size of the page asked for.
proof fn lemma_listing_ignores_limit(
    store: StoreView,
    a: ListEventsParamsView,
    b: ListEventsParamsView,
    order: Seq<int>,
)
    requires
        is_listing(store, a, order),
        a.before == b.before,
        a.status == b.status,
        a.endpoint_id == b.endpoint_id,
        a.provider == b.provider,
    ensures
        is_listing(store, b, order),
{
    assert forall|i: int|
        0 <= i < store.events.len() && listed(#[trigger] store.events[i], b) implies order.contains(
        i,
    ) by {
        assert(listed(store.events[i], a));
    }
}

/// The page asked for with `next_before` follows the page that gave it. On a
/// store whose events are stored under their ids as written: a page that
/// hands out a cursor is full; the cursor is the time of receipt and the id
/// of its last line; the listing from that cursor on is the rest of the
/// listing the page began; every line of the next page comes after the
/// cursor, by time of receipt and then by id; and no event is on both pages.
pub proof fn lemma_next_page_follows_the_cursor(
    store: StoreView,
    params: ListEventsParamsView,
    order: Seq<int>,
    page: ListEventsResult,
    next_order: Seq<int>,
    next_page: ListEventsResult,
)
    requires
        store.wf(),
        store.event_ids_as_written(),
        params.limit >= 1,
        list_events_outcome(store, params, order, Ok::<ListEventsResult, StoreError>(page)),
        page.next_before is Some,
        list_events_outcome(
            store,
            ListEventsParamsView { before: cursor_view(page.next_before), ..params },
            next_order,
            Ok::<ListEventsResult, StoreError>(next_page),
        ),
    ensures
        page.events.len() == params.limit,
        order.len() > params.limit,
        next_order == order.subrange(params.limit as int, order.len() as int),
        ({
            let cursor = cursor_view(page.next_before).unwrap();
            let last = page.events[page.events.len() - 1]@.event;
            &&& cursor.received_at == last.received_at
            &&& cursor.id == last.id
            &&& forall|k: int|
                0 <= k < next_page.events.len() ==> {
                    let x = (#[trigger] next_page.events[k])@.event;
                    text_lt(x.received_at, cursor.received_at) || (x.received_at
                        == cursor.received_at && text_lt(uuid_text(x.id), uuid_text(cursor.id)))
                }
        }),
        forall|j: int, k: int|
            0 <= j < page.events.len() && 0 <= k < next_page.events.len() ==> (
            #[trigger] page.events[j])@.event.id != (#[trigger] next_page.events[k])@.event.id,
{
    let limit = params.limit as int;
    let cursor = cursor_view(page.next_before).unwrap();
    let onward = ListEventsParamsView { before: Some(cursor), ..params };
    assert(order.len() > limit);
    let last_row = store.joined_event(order[limit - 1]);
    assert(list_item_of_row(store.joined_event(order[limit - 1])) is Ok);
    lemma_list_item_reads_row(last_row);
    assert(last_row.event == store.events[order[limit - 1]]);
    assert(as_written(store.events[order[limit - 1]].id));
    lemma_next_page_continues(store, params, order, limit, cursor, next_order);
    assert forall|k: int| 0 <= k < next_page.events.len() implies {
        let x = (#[trigger] next_page.events[k])@.event;
        text_lt(x.received_at, cursor.received_at) || (x.received_at == cursor.received_at
            && text_lt(uuid_text(x.id), uuid_text(cursor.id)))
    } by {
        let row = store.joined_event(next_order[k]);
        assert(list_item_of_row(store.joined_event(next_order[k])) is Ok);
        lemma_list_item_reads_row(row);
        assert(row.event == store.events[next_order[k]]);
        assert(listed(store.events[next_order[k]], onward));
        assert(as_written(store.events[next_order[k]].id));
    }
    assert forall|j: int, k: int|
        0 <= j < page.events.len() && 0 <= k < next_page.events.len() implies (
    #[trigger] page.events[j])@.event.id != (#[trigger] next_page.events[k])@.event.id by {
        let a = order[j];
        let b = next_order[k];
        assert(b == order[limit + k]);
        assert(list_item_of_row(store.joined_event(order[j])) is Ok);
        assert(list_item_of_row(store.joined_event(next_order[k])) is Ok);
        lemma_list_item_reads_row(store.joined_event(a));
        lemma_list_item_reads_row(store.joined_event(b));
        assert(store.joined_event(a).event == store.events[a]);
        assert(store.joined_event(b).event == store.events[b]);
        assert(key_lt(list_key(store, order[limit + k]), list_key(store, order[j])));
        lemma_key_lt_asym(list_key(store, b), list_key(store, a));
        assert(a != b);
        let ids = store.event_ids();
        if a < b {
            assert(ids[a] != ids[b]);
        } else {
            assert(ids[b] != ids[a]);
        }
        assert(as_written(store.events[a].id));
        assert(as_written(store.events[b].id));
    }
}

/// Two pages in a row make one page of twice the size. What a page and the
/// page after it show, one after the other, is line for line what one page
/// of twice the size shows: at the boundary between the pages no event is
/// left out and none is shown again, even among events received at the same
/// time.
pub proof fn lemma_two_pages_make_one(
    store: StoreView,
    params: ListEventsParamsView,
    order: Seq<int>,
    page: ListEventsResult,
    next_order: Seq<int>,
    next_page: ListEventsResult,
    wide_order: Seq<int>,
    wide_page: ListEventsResult,
)
    requires
        store.wf(),
        store.event_ids_as_written(),
        1 <= params.limit,
        2 * params.limit <= i64::MAX,
        list_events_outcome(store, params, order, Ok::<ListEventsResult, StoreError>(page)),
        page.next_before is Some,
        list_events_outcome(
            store,
            ListEventsParamsView { before: cursor_view(page.next_before), ..params },
            next_order,
            Ok::<ListEventsResult, StoreError>(next_page),
        ),
        list_events_outcome(
            store,
            ListEventsParamsView { limit: (2 * params.limit) as i64, ..params },
            wide_order,
            Ok::<ListEventsResult, StoreError>(wide_page),
        ),
    ensures
        wide_page.events.len() == page.events.len() + next_page.events.len(),
        forall|k: int|
            0 <= k < page.events.len() ==> (#[trigger] wide_page.events[k])@ == page.events[k]@,
        forall|k: int|
            0 <= k < next_page.events.len() ==> wide_page.events[page.events.len() + k]@ == (
            #[trigger] next_page.events[k])@,
{
    let limit = params.limit as int;
    let wide = ListEventsParamsView { limit: (2 * params.limit) as i64, ..params };
    lemma_next_page_follows_the_cursor(store, params, order, page, next_order, next_page);
    lemma_listing_ignores_limit(store, wide, params, wide_order);
    lemma_listing_is_unique(store, params, wide_order, order);
    assert forall|k: int| 0 <= k < page.events.len() implies (
    #[trigger] wide_page.events[k])@ == page.events[k]@ by {
        assert(list_item_of_row(store.joined_event(order[k])) is Ok);
    }
    assert forall|k: int| 0 <= k < next_page.events.len() implies wide_page.events[page.events.len()
        + k]@ == (#[trigger] next_page.events[k])@ by {
        assert(next_order[k] == order[limit + k]);
        assert(list_item_of_row(store.joined_event(next_order[k])) is Ok);
        assert(list_item_of_row(store.joined_event(order[limit + k])) is Ok);
    }
}

} // verus!
