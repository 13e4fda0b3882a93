//! The lease engine: which events a worker is handed, and what leasing does
//! to the store.

use vstd::prelude::*;

use crate::inspector::store::{circuit_of_row, map_circuit, opt_str};
use crate::json::{json_to_text_map, read_text_map};
use crate::order::{key_lt, keys_view, member, positions, sort_keys, SortKey, SortKeyView};
use crate::rows::{id_of_text, read_id, read_replayed_from, replayed_from};
use crate::tables::{
    lemma_same_keys_wf, position, CircuitRow, CircuitRowView, EventRowView, JoinedEvent,
    JoinedEventView, Store, StoreError, StoreErrorView, StoreView,
};
use crate::text::{copy_opt_text, copy_text, join_text, str_eq, str_le, text_le};
use crate::time::{format_utc, Timestamp};
use crate::types::dispatcher::{LeaseRequest, LeasedEvent, LeasedEventView};
use crate::types::webhook_event::{WebhookEvent, WebhookEventView};
use crate::types::{TargetCircuitStatus, WebhookEventStatus};

verus! {

/// Reads a status as the store spells it.
pub fn parse_status(status: &str) -> (r: Result<WebhookEventStatus, StoreError>)
    ensures
        match WebhookEventStatus::from_text(status@) {
            Some(s) => r == Ok::<WebhookEventStatus, StoreError>(s),
            None => r matches Err(e) && e@ == StoreErrorView::Parse("unknown status: "@ + status@),
        },
{
    match WebhookEventStatus::parse(status) {
        Some(s) => Ok(s),
        None => Err(StoreError::Parse(join_text("unknown status: ", status))),
    }
}

/// Reads a circuit state as the store spells it.
pub fn parse_circuit_status(status: &str) -> (r: Result<TargetCircuitStatus, StoreError>)
    ensures
        match TargetCircuitStatus::from_text(status@) {
            Some(s) => r == Ok::<TargetCircuitStatus, StoreError>(s),
            None => r matches Err(e) && e@ == StoreErrorView::Parse(
                "unknown circuit status: "@ + status@,
            ),
        },
{
    match TargetCircuitStatus::parse(status) {
        Some(s) => Ok(s),
        None => Err(StoreError::Parse(join_text("unknown circuit status: ", status))),
    }
}

/// The lease on an event in flight has run out at `now`.
pub open spec fn lease_lapsed(e: EventRowView, now: Seq<char>) -> bool {
    &&& e.status == WebhookEventStatus::InFlight.text()
    &&& e.lease_expires_at matches Some(until) && text_le(until, now)
}

/// An event whose lease ran out: requeued, and leased to nobody.
pub open spec fn requeued(e: EventRowView) -> EventRowView {
    EventRowView {
        status: WebhookEventStatus::Requeued.text(),
        lease_expires_at: None,
        leased_by: None,
        ..e
    }
}

/// The cooldown of an open circuit is over at `now`.
pub open spec fn cooled_down(c: CircuitRowView, now: Seq<char>) -> bool {
    &&& c.state == TargetCircuitStatus::Open.text()
    &&& c.open_until matches Some(until) && text_le(until, now)
}

/// A circuit whose cooldown is over: closed again, its count of failures
/// kept, so that the next failure opens it at once.
pub open spec fn half_opened(c: CircuitRowView) -> CircuitRowView {
    CircuitRowView { state: TargetCircuitStatus::Closed.text(), open_until: None, ..c }
}

/// An event under a lease.
pub open spec fn leased(e: EventRowView, worker: Seq<char>, until: Seq<char>) -> EventRowView {
    EventRowView {
        status: WebhookEventStatus::InFlight.text(),
        lease_expires_at: Some(until),
        leased_by: Some(worker),
        ..e
    }
}

/// The circuit of an endpoint lets deliveries through at `now`: the endpoint
/// has no circuit row, or the circuit is closed, or it is open and its
/// cooldown is over.
pub open spec fn circuit_admits(store: StoreView, endpoint_id: Seq<char>, now: Seq<char>) -> bool {
    match position(store.circuit_keys(), endpoint_id) {
        None => true,
        Some(k) => store.circuits[k].state == TargetCircuitStatus::Closed.text() || cooled_down(
            store.circuits[k],
            now,
        ),
    }
}

/// The event at position `i` may be leased at `now`: it is pending or
/// requeued, its next attempt is due, no lease on it is still running, and
/// the circuit of its endpoint lets deliveries through.
pub open spec fn eligible(store: StoreView, i: int, now: Seq<char>) -> bool {
    let e = store.events[i];
    &&& e.status == WebhookEventStatus::Pending.text() || e.status
        == WebhookEventStatus::Requeued.text()
    &&& e.next_attempt_at matches Some(due) ==> text_le(due, now)
    &&& e.lease_expires_at matches Some(until) ==> text_le(until, now)
    &&& circuit_admits(store, e.endpoint_id, now)
}

/// What the event at position `i` is ordered by when events are leased: the
/// time it was received, and among events received at the same time its
/// place in the table.
pub open spec fn lease_key(store: StoreView, i: int) -> SortKeyView {
    SortKeyView {
        major: store.events[i].received_at,
        minor: Seq::empty(),
        number: 0,
        position: i as usize,
    }
}

/// The event at position `i` is leased before the one at position `j`.
pub open spec fn leased_before(store: StoreView, i: int, j: int) -> bool {
    key_lt(lease_key(store, i), lease_key(store, j))
}

/// `picks` are the positions of the events that a lease of up to `limit`
/// events takes from `store` at `now`, in the order it takes them: the
/// eligible events that were received first, oldest first, and all eligible
/// events if they are fewer than `limit`.
pub open spec fn is_lease_selection(
    store: StoreView,
    now: Seq<char>,
    limit: int,
    picks: Seq<int>,
) -> bool {
    &&& picks.len() <= limit
    &&& forall|k: int|
        0 <= k < picks.len() ==> 0 <= #[trigger] picks[k] < store.events.len() && eligible(
            store,
            picks[k],
            now,
        )
    &&& forall|j: int, k: int|
        0 <= j < k < picks.len() ==> leased_before(store, #[trigger] picks[j], #[trigger] picks[k])
    &&& forall|i: int|
        0 <= i < store.events.len() && #[trigger] eligible(store, i, now) && !picks.contains(i)
            ==> picks.len() == limit && forall|k: int|
            0 <= k < picks.len() ==> leased_before(store, #[trigger] picks[k], i)
}

impl StoreView {
    /// The store once the leases that ran out by `now` have been taken back
    /// and the circuits whose cooldown is over by `now` have been closed.
    pub open spec fn swept(self, now: Seq<char>) -> StoreView {
        StoreView {
            events: Seq::new(
                self.events.len(),
                |i: int|
                    if lease_lapsed(self.events[i], now) {
                        requeued(self.events[i])
                    } else {
                        self.events[i]
                    },
            ),
            circuits: Seq::new(
                self.circuits.len(),
                |i: int|
                    if cooled_down(self.circuits[i], now) {
                        half_opened(self.circuits[i])
                    } else {
                        self.circuits[i]
                    },
            ),
            ..self
        }
    }

    /// The store once the events at `picks` have been leased to `worker`
    /// until `until`.
    pub open spec fn claimed(self, picks: Seq<int>, worker: Seq<char>, until: Seq<char>) -> StoreView {
        StoreView {
            events: Seq::new(
                self.events.len(),
                |i: int|
                    if picks.contains(i) {
                        leased(self.events[i], worker, until)
                    } else {
                        self.events[i]
                    },
            ),
            ..self
        }
    }
}

fn text_due(at: &Option<String>, now: &str) -> (r: bool)
    ensures
        r == (at.deep_view() matches Some(t) ==> text_le(t, now@)),
{
    match at {
        Some(t) => str_le(t.as_str(), now),
        None => true,
    }
}

impl Store {
    /// Takes back the leases that ran out by `now`.
    fn requeue_expired(&mut self, now: &str)
        requires
            old(self).wf(),
        ensures
            final(self)@ == (StoreView { circuits: old(self)@.circuits, ..old(self)@.swept(now@) }),
            final(self).wf(),
    {
        let ghost pre = self@;
        let mut i: usize = 0;
        while i < self.events.len()
            invariant
                i <= self.events.len(),
                pre.wf(),
                pre.same_keys(self@),
                self@.circuits == pre.circuits,
                forall|k: int|
                    0 <= k < i ==> #[trigger] self@.events[k] == pre.swept(now@).events[k],
                forall|k: int|
                    i <= k < self.events.len() ==> #[trigger] self@.events[k] == pre.events[k],
            decreases self.events.len() - i,
        {
            let ghost before = self@;
            assert(self@.events[i as int] == self.events[i as int]@);
            let lapsed = str_eq(
                self.events[i].status.as_str(),
                WebhookEventStatus::InFlight.as_str(),
            ) && match &self.events[i].lease_expires_at {
                Some(until) => str_le(until.as_str(), now),
                None => false,
            };
            if lapsed {
                let mut row = self.events[i].duplicate();
                row.status = copy_text(WebhookEventStatus::Requeued.as_str());
                row.lease_expires_at = None;
                row.leased_by = None;
                self.events.set(i, row);
                assert(self@.events =~= before.events.update(i as int, requeued(pre.events[i as int])));
                assert(self@.endpoints =~= before.endpoints);
                assert(self@.attempts =~= before.attempts);
                assert(self@.circuits =~= before.circuits);
            }
            i = i + 1;
        }
        proof {
            lemma_same_keys_wf(pre, self@);
            assert(self@.events =~= pre.swept(now@).events);
        }
    }

    /// Closes the circuits whose cooldown is over by `now`.
    fn half_open_circuits(&mut self, now: &str)
        requires
            old(self).wf(),
        ensures
            final(self)@ == (StoreView { events: old(self)@.events, ..old(self)@.swept(now@) }),
            final(self).wf(),
    {
        let ghost pre = self@;
        let mut i: usize = 0;
        while i < self.circuits.len()
            invariant
                i <= self.circuits.len(),
                pre.wf(),
                pre.same_keys(self@),
                self@.events == pre.events,
                forall|k: int|
                    0 <= k < i ==> #[trigger] self@.circuits[k] == pre.swept(now@).circuits[k],
                forall|k: int|
                    i <= k < self.circuits.len() ==> #[trigger] self@.circuits[k]
                        == pre.circuits[k],
            decreases self.circuits.len() - i,
        {
            let ghost before = self@;
            assert(self@.circuits[i as int] == self.circuits[i as int]@);
            let over = str_eq(
                self.circuits[i].state.as_str(),
                TargetCircuitStatus::Open.as_str(),
            ) && match &self.circuits[i].open_until {
                Some(until) => str_le(until.as_str(), now),
                None => false,
            };
            if over {
                let row = CircuitRow {
                    endpoint_id: copy_text(self.circuits[i].endpoint_id.as_str()),
                    state: copy_text(TargetCircuitStatus::Closed.as_str()),
                    open_until: None,
                    consecutive_failures: self.circuits[i].consecutive_failures,
                    last_failure_at: copy_opt_text(&self.circuits[i].last_failure_at),
                };
                self.circuits.set(i, row);
                assert(self@.circuits =~= before.circuits.update(
                    i as int,
                    half_opened(pre.circuits[i as int]),
                ));
                assert(self@.endpoints =~= before.endpoints);
                assert(self@.attempts =~= before.attempts);
                assert(self@.events =~= before.events);
            }
            i = i + 1;
        }
        proof {
            lemma_same_keys_wf(pre, self@);
            assert(self@.circuits =~= pre.swept(now@).circuits);
        }
    }

    /// Whether the event at position `i` may be leased at `now`.
    fn is_eligible(&self, i: usize, now: &str) -> (r: bool)
        requires
            i < self@.events.len(),
        ensures
            r == eligible(self@, i as int, now@),
    {
        let e = &self.events[i];
        assert(self@.events[i as int] == e@);
        if !(str_eq(e.status.as_str(), WebhookEventStatus::Pending.as_str()) || str_eq(
            e.status.as_str(),
            WebhookEventStatus::Requeued.as_str(),
        )) {
            return false;
        }
        if !text_due(&e.next_attempt_at, now) || !text_due(&e.lease_expires_at, now) {
            return false;
        }
        match self.find_circuit(e.endpoint_id.as_str()) {
            None => true,
            Some(k) => {
                let c = &self.circuits[k];
                assert(self@.circuits[k as int] == c@);
                str_eq(c.state.as_str(), TargetCircuitStatus::Closed.as_str()) || (str_eq(
                    c.state.as_str(),
                    TargetCircuitStatus::Open.as_str(),
                ) && match &c.open_until {
                    Some(until) => str_le(until.as_str(), now),
                    None => false,
                })
            },
        }
    }

    /// The positions of the events that a lease of up to `limit` events
    /// takes at `now`, in the order it takes them.
    fn select_eligible(&self, now: &str, limit: i64) -> (picks: Vec<usize>)
        requires
            limit > 0,
        ensures
            is_lease_selection(self@, now@, limit as int, positions(picks@)),
    {
        let mut keys: Vec<SortKey> = Vec::new();
        let mut i: usize = 0;
        while i < self.events.len()
            invariant
                i <= self.events.len(),
                forall|k: int|
                    0 <= k < keys.len() ==> (#[trigger] keys_view(keys@)[k]).position < i
                        && eligible(self@, keys_view(keys@)[k].position as int, now@)
                        && keys_view(keys@)[k] == lease_key(
                        self@,
                        keys_view(keys@)[k].position as int,
                    ),
                forall|j: int, k: int|
                    0 <= j < k < keys.len() ==> (#[trigger] keys_view(keys@)[j]).position < (
                    #[trigger] keys_view(keys@)[k]).position,
                forall|p: int|
                    0 <= p < i && #[trigger] eligible(self@, p, now@) ==> member(
                        keys_view(keys@),
                        lease_key(self@, p),
                    ),
            decreases self.events.len() - i,
        {
            if self.is_eligible(i, now) {
                let ghost before = keys_view(keys@);
                let key = SortKey {
                    major: copy_text(self.events[i].received_at.as_str()),
                    minor: String::new(),
                    number: 0,
                    position: i,
                };
                assert(self@.events[i as int] == self.events[i as int]@);
                assert(key@ == lease_key(self@, i as int));
                keys.push(key);
                proof {
                    let after = keys_view(keys@);
                    assert(after =~= before.push(lease_key(self@, i as int)));
                    assert forall|p: int|
                        0 <= p < i + 1 && #[trigger] eligible(self@, p, now@) implies member(
                        after,
                        lease_key(self@, p),
                    ) by {
                        if p < i {
                            let w = choose|w: int|
                                0 <= w < before.len() && before[w] == lease_key(self@, p);
                            assert(after[w] == lease_key(self@, p));
                        } else {
                            assert(after[before.len() as int] == lease_key(self@, p));
                        }
                    }
                }
            }
            i = i + 1;
        }
        let ghost unsorted = keys_view(keys@);
        let sorted = sort_keys(keys);
        let ghost order = keys_view(sorted@);
        let mut picks: Vec<usize> = Vec::new();
        let mut n: usize = 0;
        while n < sorted.len() && (n as i64) < limit
            invariant
                n <= sorted.len(),
                n <= limit,
                limit > 0,
                order == keys_view(sorted@),
                picks.len() == n,
                forall|k: int| 0 <= k < n ==> #[trigger] picks@[k] == order[k].position,
            decreases sorted.len() - n,
        {
            assert(order[n as int] == sorted@[n as int]@);
            picks.push(sorted[n].position);
            n = n + 1;
        }
        proof {
            let chosen = positions(picks@);
            assert forall|k: int| 0 <= k < chosen.len() implies 0 <= #[trigger] chosen[k]
                < self@.events.len() && eligible(self@, chosen[k], now@) && order[k] == lease_key(
                self@,
                chosen[k],
            ) by {
                let w = choose|w: int| 0 <= w < unsorted.len() && unsorted[w] == order[k];
                assert(unsorted[w].position == chosen[k]);
            }
            assert forall|i: int|
                0 <= i < self@.events.len() && #[trigger] eligible(self@, i, now@)
                    && !chosen.contains(i) implies chosen.len() == limit && forall|k: int|
                0 <= k < chosen.len() ==> leased_before(self@, #[trigger] chosen[k], i) by {
                let w = choose|w: int| 0 <= w < unsorted.len() && unsorted[w] == lease_key(self@, i);
                let v = choose|v: int| 0 <= v < order.len() && order[v] == unsorted[w];
                if v < n {
                    assert(chosen[v] == i);
                }
                assert forall|k: int| 0 <= k < chosen.len() implies leased_before(
                    self@,
                    #[trigger] chosen[k],
                    i,
                ) by {
                    assert(key_lt(order[k], order[v]));
                }
            }
        }
        picks
    }

    /// Leases the events at `picks` to `worker` until `until`.
    fn claim(&mut self, picks: &Vec<usize>, worker: &str, until: &str)
        requires
            old(self).wf(),
            forall|k: int| 0 <= k < picks.len() ==> #[trigger] picks@[k] < old(self)@.events.len(),
        ensures
            final(self)@ == old(self)@.claimed(positions(picks@), worker@, until@),
            final(self).wf(),
    {
        let ghost pre = self@;
        let ghost chosen = positions(picks@);
        let mut n: usize = 0;
        while n < picks.len()
            invariant
                n <= picks.len(),
                pre.wf(),
                pre.same_keys(self@),
                self@.circuits == pre.circuits,
                chosen == positions(picks@),
                forall|k: int| 0 <= k < picks.len() ==> #[trigger] picks@[k] < pre.events.len(),
                forall|i: int|
                    0 <= i < pre.events.len() ==> #[trigger] self@.events[i] == (if chosen.subrange(
                        0,
                        n as int,
                    ).contains(i) {
                        leased(pre.events[i], worker@, until@)
                    } else {
                        pre.events[i]
                    }),
            decreases picks.len() - n,
        {
            let ghost before = self@;
            let i = picks[n];
            assert(chosen[n as int] == i);
            assert(self@.events[i as int] == self.events[i as int]@);
            let mut row = self.events[i].duplicate();
            row.status = copy_text(WebhookEventStatus::InFlight.as_str());
            row.lease_expires_at = Some(copy_text(until));
            row.leased_by = Some(copy_text(worker));
            self.events.set(i, row);
            proof {
                assert(self@.endpoints =~= before.endpoints);
                assert(self@.attempts =~= before.attempts);
                assert(self@.circuits =~= before.circuits);
                let done = chosen.subrange(0, n as int);
                let more = chosen.subrange(0, n as int + 1);
                assert(more =~= done.push(i as int));
                assert forall|j: int| 0 <= j < pre.events.len() implies #[trigger] self@.events[j]
                    == (if more.contains(j) {
                    leased(pre.events[j], worker@, until@)
                } else {
                    pre.events[j]
                }) by {
                    assert(more[n as int] == i);
                    if j == i {
                        assert(more.contains(j));
                    } else {
                        assert(self@.events[j] == before.events[j]);
                        if done.contains(j) {
                            let w = choose|w: int| 0 <= w < done.len() && done[w] == j;
                            assert(more[w] == j);
                        }
                        if more.contains(j) {
                            let w = choose|w: int| 0 <= w < more.len() && more[w] == j;
                            assert(w < n);
                            assert(done[w] == j);
                        }
                    }
                }
            }
            n = n + 1;
        }
        proof {
            assert(chosen.subrange(0, picks.len() as int) =~= chosen);
            lemma_same_keys_wf(pre, self@);
            assert(self@.events =~= pre.claimed(chosen, worker@, until@).events);
        }
    }

    /// Leases up to `limit` events to `worker` in one step: takes back the
    /// leases that ran out by `now`, closes the circuits whose cooldown is
    /// over, and leases the eligible events that were received first until
    /// `until`. Hands back their positions, oldest first.
    pub fn lease(&mut self, worker: &str, limit: i64, now: &str, until: &str) -> (picks: Vec<usize>)
        requires
            old(self).wf(),
            limit > 0,
        ensures
            is_lease_selection(old(self)@.swept(now@), now@, limit as int, positions(picks@)),
            final(self)@ == old(self)@.swept(now@).claimed(positions(picks@), worker@, until@),
            final(self).wf(),
            forall|k: int|
                0 <= k < picks.len() ==> #[trigger] picks@[k] < final(self)@.events.len(),
    {
        self.requeue_expired(now);
        self.half_open_circuits(now);
        assert(self@ == old(self)@.swept(now@));
        let picks = self.select_eligible(now, limit);
        assert forall|k: int| 0 <= k < picks.len() implies #[trigger] picks@[k]
            < self@.events.len() by {
            assert(positions(picks@)[k] == picks@[k]);
        }
        self.claim(&picks, worker, until);
        picks
    }
}

/// The leased event that a joined row makes. The checks are made in this
/// order: status, headers, lease, event id, endpoint id, replayed-from id,
/// circuit.
pub open spec fn leased_event_of(row: JoinedEventView) -> Result<LeasedEventView, StoreErrorView> {
    let e = row.event;
    match WebhookEventStatus::from_text(e.status) {
        None => Err(StoreErrorView::Parse("unknown status: "@ + e.status)),
        Some(status) => match json_to_text_map(e.headers) {
            Err(err) => Err(StoreErrorView::Parse("invalid headers JSON: "@ + err)),
            Ok(headers) => match e.lease_expires_at {
                None => Err(StoreErrorView::Parse("missing lease_expires_at"@)),
                Some(lease_expires_at) => match id_of_text(e.id, "invalid event id: "@) {
                    Err(err) => Err(err),
                    Ok(id) => match id_of_text(e.endpoint_id, "invalid endpoint id: "@) {
                        Err(err) => Err(err),
                        Ok(endpoint_id) => match replayed_from(e.replayed_from_event_id) {
                            Err(err) => Err(err),
                            Ok(replayed_from_event_id) => match circuit_of_row(row) {
                                Err(err) => Err(err),
                                Ok(circuit) => Ok(
                                    LeasedEventView {
                                        event: WebhookEventView {
                                            id,
                                            endpoint_id,
                                            replayed_from_event_id,
                                            provider: e.provider,
                                            headers,
                                            payload: e.payload,
                                            status,
                                            attempts: e.attempts,
                                            received_at: e.received_at,
                                            next_attempt_at: e.next_attempt_at,
                                            lease_expires_at: Some(lease_expires_at),
                                            leased_by: e.leased_by,
                                            last_error: e.last_error,
                                        },
                                        target_url: row.target_url,
                                        lease_expires_at,
                                        circuit,
                                    },
                                ),
                            },
                        },
                    },
                },
            },
        },
    }
}

impl LeasedEvent {
    /// Reads a joined row as a leased event.
    pub fn try_from(row: JoinedEvent) -> (r: Result<LeasedEvent, StoreError>)
        ensures
            match r {
                Ok(leased) => leased_event_of(row@) == Ok::<LeasedEventView, StoreErrorView>(
                    leased@,
                ),
                Err(e) => leased_event_of(row@) == Err::<LeasedEventView, StoreErrorView>(e@),
            },
    {
        let status = match parse_status(row.event.status.as_str()) {
            Ok(s) => s,
            Err(e) => {
                return Err(e);
            },
        };
        let headers = match read_text_map(row.event.headers.as_str()) {
            Ok(h) => h,
            Err(err) => {
                return Err(StoreError::Parse(join_text("invalid headers JSON: ", err.as_str())));
            },
        };
        let lease_expires_at = match &row.event.lease_expires_at {
            Some(t) => copy_text(t.as_str()),
            None => {
                return Err(StoreError::Parse(copy_text("missing lease_expires_at")));
            },
        };
        let id = match read_id(row.event.id.as_str(), "invalid event id: ") {
            Ok(id) => id,
            Err(e) => {
                return Err(e);
            },
        };
        let endpoint_id = match read_id(row.event.endpoint_id.as_str(), "invalid endpoint id: ") {
            Ok(id) => id,
            Err(e) => {
                return Err(e);
            },
        };
        let replayed_from_event_id = match read_replayed_from(&row.event.replayed_from_event_id) {
            Ok(id) => id,
            Err(e) => {
                return Err(e);
            },
        };
        let circuit = match map_circuit(
            row.event.endpoint_id.as_str(),
            opt_str(&row.circuit_state),
            opt_str(&row.circuit_open_until),
            row.circuit_consecutive_failures,
            opt_str(&row.circuit_last_failure_at),
        ) {
            Ok(c) => c,
            Err(e) => {
                return Err(e);
            },
        };
        let event = WebhookEvent {
            id,
            endpoint_id,
            replayed_from_event_id,
            provider: row.event.provider,
            headers,
            payload: row.event.payload,
            status,
            attempts: row.event.attempts,
            received_at: row.event.received_at,
            next_attempt_at: row.event.next_attempt_at,
            lease_expires_at: row.event.lease_expires_at,
            leased_by: row.event.leased_by,
            last_error: row.event.last_error,
        };
        Ok(LeasedEvent { event, target_url: row.target_url, lease_expires_at, circuit })
    }
}

/// The rows that a lease hands out: the events at `picks`, each joined with
/// its endpoint and circuit.
pub open spec fn leased_rows(store: StoreView, picks: Seq<int>) -> Seq<JoinedEventView> {
    Seq::new(picks.len(), |k: int| store.joined_event(picks[k]))
}

/// `r` is what reading `rows` as leased events comes to: the events, row by
/// row, or the error of the first row that cannot be read.
pub open spec fn hydrated(rows: Seq<JoinedEventView>, r: Result<Vec<LeasedEvent>, StoreError>) -> bool {
    match r {
        Ok(events) => events.len() == rows.len() && forall|k: int|
            0 <= k < rows.len() ==> leased_event_of(#[trigger] rows[k]) == Ok::<
                LeasedEventView,
                StoreErrorView,
            >(events[k]@),
        Err(e) => exists|k: int|
            0 <= k < rows.len() && leased_event_of(#[trigger] rows[k]) == Err::<
                LeasedEventView,
                StoreErrorView,
            >(e@) && forall|j: int| 0 <= j < k ==> leased_event_of(#[trigger] rows[j]) is Ok,
    }
}

/// A lease of up to `limit` events to `worker` at `now`, until `until`, took
/// the events at `picks`, left the store as `post` and handed back `r`.
pub open spec fn lease_outcome(
    pre: StoreView,
    worker: Seq<char>,
    limit: int,
    now: Seq<char>,
    until: Seq<char>,
    picks: Seq<int>,
    post: StoreView,
    r: Result<Vec<LeasedEvent>, StoreError>,
) -> bool {
    &&& is_lease_selection(pre.swept(now), now, limit, picks)
    &&& post == pre.swept(now).claimed(picks, worker, until)
    &&& hydrated(leased_rows(post, picks), r)
}

/// Leases up to `req.limit` events to a worker for `req.lease_ms`
/// milliseconds from `now`.
///
/// Leases that ran out are taken back first, and circuits whose cooldown is
/// over are closed. Then the eligible events that were received first are
/// put in flight under the worker's name and handed back, oldest first, each
/// with the target of its endpoint and the state of its circuit. The leases
/// stand even where a leased row then turns out to be unreadable, which is
/// reported as an error.
pub fn lease_events(store: &mut Store, req: &LeaseRequest, now: Timestamp) -> (r: Result<
    Vec<LeasedEvent>,
    StoreError,
>)
    requires
        old(store).wf(),
        req.limit > 0,
        req.lease_ms > 0,
        now.can_add_millis(req.lease_ms as int),
    ensures
        final(store).wf(),
        exists|picks: Seq<int>|
            lease_outcome(
                old(store)@,
                req.worker_id@,
                req.limit as int,
                now.text(),
                now.add_millis(req.lease_ms as int).text(),
                picks,
                final(store)@,
                r,
            ),
{
    let now_str = format_utc(now);
    let lease_expires_at = format_utc(now.plus_millis(req.lease_ms as u64));
    let picks = store.lease(
        req.worker_id.as_str(),
        req.limit,
        now_str.as_str(),
        lease_expires_at.as_str(),
    );
    let ghost chosen = positions(picks@);
    let ghost rows = leased_rows(store@, chosen);
    let ghost pre = old(store)@;
    let mut events: Vec<LeasedEvent> = Vec::new();
    let mut n: usize = 0;
    while n < picks.len()
        invariant
            n <= picks.len(),
            store.wf(),
            pre == old(store)@,
            is_lease_selection(pre.swept(now.text()), now.text(), req.limit as int, chosen),
            store@ == pre.swept(now.text()).claimed(
                chosen,
                req.worker_id@,
                now.add_millis(req.lease_ms as int).text(),
            ),
            chosen == positions(picks@),
            rows == leased_rows(store@, chosen),
            forall|k: int| 0 <= k < picks.len() ==> #[trigger] picks@[k] < store@.events.len(),
            events.len() == n,
            forall|k: int|
                0 <= k < n ==> leased_event_of(#[trigger] rows[k]) == Ok::<
                    LeasedEventView,
                    StoreErrorView,
                >(events[k]@),
        decreases picks.len() - n,
    {
        assert(chosen[n as int] == picks@[n as int]);
        let row = store.joined_event(picks[n]);
        assert(row@ == rows[n as int]);
        match LeasedEvent::try_from(row) {
            Ok(leased) => {
                events.push(leased);
            },
            Err(e) => {
                let r = Err(e);
                assert(hydrated(rows, r)) by {
                    assert(leased_event_of(rows[n as int]) is Err);
                }
                assert(lease_outcome(
                    pre,
                    req.worker_id@,
                    req.limit as int,
                    now.text(),
                    now.add_millis(req.lease_ms as int).text(),
                    chosen,
                    store@,
                    r,
                ));
                return r;
            },
        }
        n = n + 1;
    }
    let r = Ok(events);
    assert(lease_outcome(
        old(store)@,
        req.worker_id@,
        req.limit as int,
        now.text(),
        now.add_millis(req.lease_ms as int).text(),
        chosen,
        store@,
        r,
    ));
    r
}

} // verus!
