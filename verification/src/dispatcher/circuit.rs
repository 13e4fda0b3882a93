//! The circuit breaker: a count of failures in a row for each endpoint, and
//! a cooldown during which an endpoint that keeps failing is left alone.

use vstd::prelude::*;

use crate::dispatcher::config::DispatcherConfig;
use crate::ids::{uuid_text, write_uuid};
use crate::tables::{lemma_position, position, CircuitRow, CircuitRowView, Store, StoreView};
use crate::text::{copy_opt_text, copy_text};
use crate::time::{format_utc, Timestamp};
use crate::types::target_circuit_state::{circuit_view, TargetCircuitStateView};
use crate::types::{TargetCircuitState, TargetCircuitStatus};

verus! {

/// How long a circuit stays open once `failures` failures in a row have been
/// counted, in milliseconds: nothing below the threshold; the base cooldown at
/// the threshold; beyond it `scaled_ms`, the base cooldown grown by the factor
/// once for each failure past the threshold; and never more than
/// `circuit_cooldown_max_ms`.
pub open spec fn cooldown_ms(config: DispatcherConfig, failures: int, scaled_ms: u64) -> int {
    let grown = if failures == config.circuit_failure_threshold {
        config.circuit_cooldown_base_ms
    } else {
        scaled_ms
    };
    if failures < config.circuit_failure_threshold {
        0
    } else if grown < config.circuit_cooldown_max_ms {
        grown as int
    } else {
        config.circuit_cooldown_max_ms as int
    }
}

/// How often the factor is applied to the base cooldown when `failures`
/// failures in a row have been counted.
pub open spec fn cooldown_steps(config: DispatcherConfig, failures: int) -> int {
    if failures < config.circuit_failure_threshold {
        0
    } else {
        failures - config.circuit_failure_threshold
    }
}

/// How often the factor is applied to the base cooldown if a report on the
/// event fails: as the failure that would then be counted against the
/// circuit of its endpoint asks. Nothing for an event that is not there.
pub open spec fn failure_steps(store: StoreView, config: DispatcherConfig, event_id: u128) -> int {
    match position(store.event_ids(), uuid_text(event_id)) {
        Some(i) => cooldown_steps(
            config,
            failures_on_record(store, store.events[i].endpoint_id) + 1,
        ),
        None => 0,
    }
}

/// Computes `failure_steps`: the exponent of the factor in the cooldown that
/// `report_delivery` expects as `scaled_cooldown_ms` for a report on this
/// event.
pub fn failure_exponent(store: &Store, config: &DispatcherConfig, event_id: u128) -> (r: u64)
    ensures
        r == failure_steps(store@, *config, event_id),
{
    let id = write_uuid(event_id);
    match store.find_event(id.as_str()) {
        Some(i) => {
            assert(store@.events[i as int] == store.events[i as int]@);
            let failures = match store.find_circuit(store.events[i].endpoint_id.as_str()) {
                Some(k) => {
                    assert(store@.circuits[k as int] == store.circuits[k as int]@);
                    store.circuits[k].consecutive_failures
                },
                None => 0,
            };
            let failures: i128 = failures as i128 + 1;
            let threshold: i128 = config.circuit_failure_threshold as i128;
            if failures < threshold {
                0
            } else {
                (failures - threshold) as u64
            }
        },
        None => 0,
    }
}

/// Computes `cooldown_ms`.
pub fn compute_cooldown_ms(
    config: &DispatcherConfig,
    consecutive_failures: i64,
    scaled_ms: u64,
) -> (r: u64)
    ensures
        r == cooldown_ms(*config, consecutive_failures as int, scaled_ms),
        r <= config.circuit_cooldown_max_ms,
{
    let threshold = config.circuit_failure_threshold as i64;
    if consecutive_failures < threshold {
        return 0;
    }
    let grown = if consecutive_failures == threshold {
        config.circuit_cooldown_base_ms
    } else {
        scaled_ms
    };
    if grown < config.circuit_cooldown_max_ms {
        grown
    } else {
        config.circuit_cooldown_max_ms
    }
}

/// The failures in a row on record for an endpoint: none where it has no
/// circuit row.
pub open spec fn failures_on_record(store: StoreView, endpoint_id: Seq<char>) -> int {
    match position(store.circuit_keys(), endpoint_id) {
        Some(i) => store.circuits[i].consecutive_failures as int,
        None => 0,
    }
}

/// The circuit row of an endpoint after a failure at `now` that brought its
/// failures in a row to `failures`.
pub open spec fn failed_circuit(
    endpoint_id: Seq<char>,
    failures: int,
    config: DispatcherConfig,
    now: Timestamp,
    scaled_ms: u64,
) -> CircuitRowView {
    let open = failures >= config.circuit_failure_threshold;
    CircuitRowView {
        endpoint_id,
        state: if open {
            TargetCircuitStatus::Open.text()
        } else {
            TargetCircuitStatus::Closed.text()
        },
        open_until: if open {
            Some(now.add_millis(cooldown_ms(config, failures, scaled_ms)).text())
        } else {
            None
        },
        consecutive_failures: failures as i64,
        last_failure_at: Some(now.text()),
    }
}

/// The circuit row of an endpoint after a delivery: closed, nothing counted.
pub open spec fn closed_circuit(endpoint_id: Seq<char>) -> CircuitRowView {
    CircuitRowView {
        endpoint_id,
        state: TargetCircuitStatus::Closed.text(),
        open_until: None,
        consecutive_failures: 0,
        last_failure_at: None,
    }
}

impl StoreView {
    /// The store with `row` in place of the circuit row of its endpoint, or
    /// added where the endpoint had none.
    pub open spec fn with_circuit(self, row: CircuitRowView) -> StoreView {
        StoreView {
            circuits: match position(self.circuit_keys(), row.endpoint_id) {
                Some(i) => self.circuits.update(i, row),
                None => self.circuits.push(row),
            },
            ..self
        }
    }

    /// The store with the circuit of an endpoint closed and its count at
    /// zero; an endpoint without a circuit row gets none.
    pub open spec fn with_circuit_reset(self, endpoint_id: Seq<char>) -> StoreView {
        match position(self.circuit_keys(), endpoint_id) {
            Some(i) => self.with_circuit(closed_circuit(endpoint_id)),
            None => self,
        }
    }

    /// The store after a failure of a delivery to an endpoint. A failure that
    /// is not retryable leaves the circuit as it is.
    pub open spec fn with_failure(
        self,
        endpoint_id: Seq<char>,
        config: DispatcherConfig,
        now: Timestamp,
        retryable: bool,
        scaled_ms: u64,
    ) -> StoreView {
        if retryable {
            self.with_circuit(
                failed_circuit(
                    endpoint_id,
                    failures_on_record(self, endpoint_id) + 1,
                    config,
                    now,
                    scaled_ms,
                ),
            )
        } else {
            self
        }
    }
}

/// The snapshot of a circuit row, under the endpoint id as a number.
pub open spec fn circuit_snapshot(row: CircuitRowView, endpoint: u128) -> TargetCircuitStateView {
    TargetCircuitStateView {
        endpoint_id: endpoint,
        state: if row.state == TargetCircuitStatus::Open.text() {
            TargetCircuitStatus::Open
        } else {
            TargetCircuitStatus::Closed
        },
        open_until: row.open_until,
        consecutive_failures: row.consecutive_failures,
        last_failure_at: row.last_failure_at,
    }
}

/// The circuit a failure report hands back: the row as the failure left it,
/// or nothing where the failure was not retryable.
pub open spec fn failure_snapshot(
    store: StoreView,
    endpoint_id: Seq<char>,
    endpoint: u128,
    config: DispatcherConfig,
    now: Timestamp,
    retryable: bool,
    scaled_ms: u64,
) -> Option<TargetCircuitStateView> {
    if retryable {
        Some(
            circuit_snapshot(
                failed_circuit(
                    endpoint_id,
                    failures_on_record(store, endpoint_id) + 1,
                    config,
                    now,
                    scaled_ms,
                ),
                endpoint,
            ),
        )
    } else {
        None
    }
}

proof fn lemma_with_circuit_wf(store: StoreView, row: CircuitRowView)
    requires
        store.wf(),
    ensures
        store.with_circuit(row).wf(),
        store.with_circuit(row).endpoints == store.endpoints,
        store.with_circuit(row).events == store.events,
        store.with_circuit(row).attempts == store.attempts,
{
    let after = store.with_circuit(row);
    lemma_position(store.circuit_keys(), row.endpoint_id);
    assert(after.endpoint_ids() =~= store.endpoint_ids());
    assert(after.event_ids() =~= store.event_ids());
    match position(store.circuit_keys(), row.endpoint_id) {
        Some(i) => {
            assert(after.circuit_keys() =~= store.circuit_keys());
        },
        None => {
            assert(after.circuit_keys() =~= store.circuit_keys().push(row.endpoint_id));
        },
    }
    assert forall|i: int| 0 <= i < after.events.len() implies position(
        after.endpoint_ids(),
        (#[trigger] after.events[i]).endpoint_id,
    ) is Some by {
        assert(store.events[i] == after.events[i]);
    }
}

impl Store {
    /// Closes the circuit of an endpoint and clears its count of failures.
    /// Says whether the endpoint has a circuit row; without one nothing is
    /// done.
    pub fn reset_circuit(&mut self, endpoint_id: &str) -> (r: bool)
        requires
            old(self).wf(),
        ensures
            final(self)@ == old(self)@.with_circuit_reset(endpoint_id@),
            r == (position(old(self)@.circuit_keys(), endpoint_id@) is Some),
            final(self).wf(),
    {
        match self.find_circuit(endpoint_id) {
            Some(_) => {
                self.put_circuit(
                    CircuitRow {
                        endpoint_id: copy_text(endpoint_id),
                        state: copy_text(TargetCircuitStatus::Closed.as_str()),
                        open_until: None,
                        consecutive_failures: 0,
                        last_failure_at: None,
                    },
                );
                true
            },
            None => false,
        }
    }

    /// Puts `row` in place of the circuit row of its endpoint, or adds it
    /// where the endpoint has none.
    fn put_circuit(&mut self, row: CircuitRow)
        requires
            old(self).wf(),
        ensures
            final(self)@ == old(self)@.with_circuit(row@),
            final(self).wf(),
    {
        proof {
            lemma_with_circuit_wf(self@, row@);
        }
        match self.find_circuit(row.endpoint_id.as_str()) {
            Some(i) => {
                self.circuits.set(i, row);
                assert(self@.circuits =~= old(self)@.circuits.update(i as int, row@));
            },
            None => {
                self.circuits.push(row);
                assert(self@.circuits =~= old(self)@.circuits.push(row@));
            },
        }
        assert(self@.endpoints =~= old(self)@.endpoints);
        assert(self@.events =~= old(self)@.events);
        assert(self@.attempts =~= old(self)@.attempts);
    }
}

/// A retryable failure at `now` can be counted against the endpoint: `now`
/// can be written, the count is not at the end of its range, and where the
/// failure opens the circuit, `now` plus the cooldown can be written too.
pub open spec fn failure_in_reach(
    store: StoreView,
    endpoint_id: Seq<char>,
    config: DispatcherConfig,
    now: Timestamp,
    scaled_ms: u64,
) -> bool {
    let failures = failures_on_record(store, endpoint_id) + 1;
    &&& now.in_range()
    &&& failures <= i64::MAX
    &&& failures >= config.circuit_failure_threshold ==> now.can_add_millis(
        cooldown_ms(config, failures, scaled_ms),
    )
}

/// Whether a retryable failure at `now` can be counted against the endpoint.
pub fn failure_fits(
    store: &Store,
    endpoint_id: &str,
    config: &DispatcherConfig,
    now: Timestamp,
    scaled_ms: u64,
) -> (r: bool)
    ensures
        r == failure_in_reach(store@, endpoint_id@, *config, now, scaled_ms),
{
    let current = match store.find_circuit(endpoint_id) {
        Some(k) => {
            assert(store@.circuits[k as int] == store.circuits[k as int]@);
            store.circuits[k].consecutive_failures
        },
        None => 0,
    };
    if !now.is_in_range() || current == i64::MAX {
        return false;
    }
    let failures = current + 1;
    if failures >= config.circuit_failure_threshold as i64 {
        now.fits_millis(compute_cooldown_ms(config, failures, scaled_ms))
    } else {
        true
    }
}

/// Counts a failed delivery against the circuit of an endpoint, unless the
/// failure is not retryable. At the threshold the circuit opens, until `now`
/// plus the cooldown; below it the circuit stays closed. `scaled_ms` is the
/// base cooldown grown by the factor `cooldown_steps` times, rounded to the
/// millisecond; it is looked at only beyond the threshold.
pub fn update_circuit_on_failure(
    store: &mut Store,
    config: &DispatcherConfig,
    endpoint_id: &str,
    endpoint_uuid: u128,
    now: Timestamp,
    retryable: bool,
    scaled_ms: u64,
) -> (r: Option<TargetCircuitState>)
    requires
        old(store).wf(),
        retryable ==> failure_in_reach(old(store)@, endpoint_id@, *config, now, scaled_ms),
    ensures
        final(store)@ == old(store)@.with_failure(
            endpoint_id@,
            *config,
            now,
            retryable,
            scaled_ms,
        ),
        circuit_view(r) == failure_snapshot(
            old(store)@,
            endpoint_id@,
            endpoint_uuid,
            *config,
            now,
            retryable,
            scaled_ms,
        ),
        final(store).wf(),
{
    if !retryable {
        return None;
    }
    let current_failures = match store.find_circuit(endpoint_id) {
        Some(i) => store.circuits[i].consecutive_failures,
        None => 0,
    };
    let consecutive_failures = current_failures + 1;
    let cooldown = compute_cooldown_ms(config, consecutive_failures, scaled_ms);
    let should_open = consecutive_failures >= config.circuit_failure_threshold as i64;
    let now_str = format_utc(now);
    let open_until = if should_open {
        Some(format_utc(now.plus_millis(cooldown)))
    } else {
        None
    };
    let state = if should_open {
        TargetCircuitStatus::Open
    } else {
        TargetCircuitStatus::Closed
    };
    let row = CircuitRow {
        endpoint_id: copy_text(endpoint_id),
        state: copy_text(state.as_str()),
        open_until: copy_opt_text(&open_until),
        consecutive_failures,
        last_failure_at: Some(copy_text(now_str.as_str())),
    };
    proof {
        TargetCircuitStatus::Open.lemma_text_round_trip();
        TargetCircuitStatus::Closed.lemma_text_round_trip();
    }
    store.put_circuit(row);
    Some(
        TargetCircuitState {
            endpoint_id: endpoint_uuid,
            state,
            open_until,
            consecutive_failures,
            last_failure_at: Some(now_str),
        },
    )
}

} // verus!
