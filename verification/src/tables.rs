//! The four tables of the store, row by row as they are persisted: every
//! column is text or an integer, and nothing has been parsed yet.

use vstd::pervasive::unreached;
use vstd::prelude::*;

use crate::ids::as_written;
use crate::text::{copy_opt_text, copy_text, str_eq};

verus! {

/// A delivery target. Reference data: the store reads it and never writes it.
#[derive(Debug, Clone, PartialEq, Eq)]
pub struct EndpointRow {
    pub id: String,
    pub target_url: String,
}

pub struct EndpointRowView {
    pub id: Seq<char>,
    pub target_url: Seq<char>,
}

impl View for EndpointRow {
    type V = EndpointRowView;

    open spec fn view(&self) -> EndpointRowView {
        EndpointRowView { id: self.id@, target_url: self.target_url@ }
    }
}

/// A row of `webhook_events`.
#[derive(Debug, Clone, PartialEq, Eq)]
pub struct EventRow {
    pub id: String,
    pub endpoint_id: String,
    pub replayed_from_event_id: Option<String>,
    pub provider: String,
    /// The headers, serialized as JSON.
    pub headers: String,
    pub payload: String,
    pub status: String,
    pub attempts: i64,
    pub received_at: String,
    pub next_attempt_at: Option<String>,
    pub lease_expires_at: Option<String>,
    pub leased_by: Option<String>,
    pub last_error: Option<String>,
}

pub struct EventRowView {
    pub id: Seq<char>,
    pub endpoint_id: Seq<char>,
    pub replayed_from_event_id: Option<Seq<char>>,
    pub provider: Seq<char>,
    pub headers: Seq<char>,
    pub payload: Seq<char>,
    pub status: Seq<char>,
    pub attempts: i64,
    pub received_at: Seq<char>,
    pub next_attempt_at: Option<Seq<char>>,
    pub lease_expires_at: Option<Seq<char>>,
    pub leased_by: Option<Seq<char>>,
    pub last_error: Option<Seq<char>>,
}

impl View for EventRow {
    type V = EventRowView;

    open spec fn view(&self) -> EventRowView {
        EventRowView {
            id: self.id@,
            endpoint_id: self.endpoint_id@,
            replayed_from_event_id: self.replayed_from_event_id.deep_view(),
            provider: self.provider@,
            headers: self.headers@,
            payload: self.payload@,
            status: self.status@,
            attempts: self.attempts,
            received_at: self.received_at@,
            next_attempt_at: self.next_attempt_at.deep_view(),
            lease_expires_at: self.lease_expires_at.deep_view(),
            leased_by: self.leased_by.deep_view(),
            last_error: self.last_error.deep_view(),
        }
    }
}

impl EventRow {
    /// A copy of the row.
    pub fn duplicate(&self) -> (r: EventRow)
        ensures
            r@ == self@,
    {
        EventRow {
            id: copy_text(self.id.as_str()),
            endpoint_id: copy_text(self.endpoint_id.as_str()),
            replayed_from_event_id: copy_opt_text(&self.replayed_from_event_id),
            provider: copy_text(self.provider.as_str()),
            headers: copy_text(self.headers.as_str()),
            payload: copy_text(self.payload.as_str()),
            status: copy_text(self.status.as_str()),
            attempts: self.attempts,
            received_at: copy_text(self.received_at.as_str()),
            next_attempt_at: copy_opt_text(&self.next_attempt_at),
            lease_expires_at: copy_opt_text(&self.lease_expires_at),
            leased_by: copy_opt_text(&self.leased_by),
            last_error: copy_opt_text(&self.last_error),
        }
    }
}

/// A row of `webhook_attempt_logs`.
#[derive(Debug, Clone, PartialEq, Eq)]
pub struct AttemptRow {
    pub id: String,
    pub event_id: String,
    pub attempt_no: i64,
    pub started_at: String,
    pub finished_at: String,
    pub request_headers: String,
    pub request_body: String,
    pub response_status: Option<i64>,
    pub response_headers: Option<String>,
    pub response_body: Option<String>,
    pub error_kind: Option<String>,
    pub error_message: Option<String>,
}

pub struct AttemptRowView {
    pub id: Seq<char>,
    pub event_id: Seq<char>,
    pub attempt_no: i64,
    pub started_at: Seq<char>,
    pub finished_at: Seq<char>,
    pub request_headers: Seq<char>,
    pub request_body: Seq<char>,
    pub response_status: Option<i64>,
    pub response_headers: Option<Seq<char>>,
    pub response_body: Option<Seq<char>>,
    pub error_kind: Option<Seq<char>>,
    pub error_message: Option<Seq<char>>,
}

impl View for AttemptRow {
    type V = AttemptRowView;

    open spec fn view(&self) -> AttemptRowView {
        AttemptRowView {
            id: self.id@,
            event_id: self.event_id@,
            attempt_no: self.attempt_no,
            started_at: self.started_at@,
            finished_at: self.finished_at@,
            request_headers: self.request_headers@,
            request_body: self.request_body@,
            response_status: self.response_status,
            response_headers: self.response_headers.deep_view(),
            response_body: self.response_body.deep_view(),
            error_kind: self.error_kind.deep_view(),
            error_message: self.error_message.deep_view(),
        }
    }
}

/// A row of `target_circuit_states`. An endpoint without a row has a closed
/// circuit and no failures.
#[derive(Debug, Clone, PartialEq, Eq)]
pub struct CircuitRow {
    pub endpoint_id: String,
    pub state: String,
    pub open_until: Option<String>,
    pub consecutive_failures: i64,
    pub last_failure_at: Option<String>,
}

pub struct CircuitRowView {
    pub endpoint_id: Seq<char>,
    pub state: Seq<char>,
    pub open_until: Option<Seq<char>>,
    pub consecutive_failures: i64,
    pub last_failure_at: Option<Seq<char>>,
}

impl View for CircuitRow {
    type V = CircuitRowView;

    open spec fn view(&self) -> CircuitRowView {
        CircuitRowView {
            endpoint_id: self.endpoint_id@,
            state: self.state@,
            open_until: self.open_until.deep_view(),
            consecutive_failures: self.consecutive_failures,
            last_failure_at: self.last_failure_at.deep_view(),
        }
    }
}

/// An event row joined with its endpoint and with the circuit row of that
/// endpoint. The circuit columns are empty where the endpoint has no circuit
/// row.
#[derive(Debug, Clone, PartialEq, Eq)]
pub struct JoinedEvent {
    pub event: EventRow,
    pub target_url: String,
    pub circuit_state: Option<String>,
    pub circuit_open_until: Option<String>,
    pub circuit_consecutive_failures: Option<i64>,
    pub circuit_last_failure_at: Option<String>,
}

pub struct JoinedEventView {
    pub event: EventRowView,
    pub target_url: Seq<char>,
    pub circuit_state: Option<Seq<char>>,
    pub circuit_open_until: Option<Seq<char>>,
    pub circuit_consecutive_failures: Option<i64>,
    pub circuit_last_failure_at: Option<Seq<char>>,
}

impl View for JoinedEvent {
    type V = JoinedEventView;

    open spec fn view(&self) -> JoinedEventView {
        JoinedEventView {
            event: self.event@,
            target_url: self.target_url@,
            circuit_state: self.circuit_state.deep_view(),
            circuit_open_until: self.circuit_open_until.deep_view(),
            circuit_consecutive_failures: self.circuit_consecutive_failures,
            circuit_last_failure_at: self.circuit_last_failure_at.deep_view(),
        }
    }
}

/// An event id joined with one of the event's attempts. The attempt columns
/// are empty in the one row that stands for an event without attempts.
#[derive(Debug, Clone, PartialEq, Eq)]
pub struct ListAttemptsRow {
    pub event_id: String,
    pub attempt_id: Option<String>,
    pub attempt_no: Option<i64>,
    pub started_at: Option<String>,
    pub finished_at: Option<String>,
    pub request_headers: Option<String>,
    pub request_body: Option<String>,
    pub response_status: Option<i64>,
    pub response_headers: Option<String>,
    pub response_body: Option<String>,
    pub error_kind: Option<String>,
    pub error_message: Option<String>,
}

pub struct ListAttemptsRowView {
    pub event_id: Seq<char>,
    pub attempt_id: Option<Seq<char>>,
    pub attempt_no: Option<i64>,
    pub started_at: Option<Seq<char>>,
    pub finished_at: Option<Seq<char>>,
    pub request_headers: Option<Seq<char>>,
    pub request_body: Option<Seq<char>>,
    pub response_status: Option<i64>,
    pub response_headers: Option<Seq<char>>,
    pub response_body: Option<Seq<char>>,
    pub error_kind: Option<Seq<char>>,
    pub error_message: Option<Seq<char>>,
}

impl View for ListAttemptsRow {
    type V = ListAttemptsRowView;

    open spec fn view(&self) -> ListAttemptsRowView {
        ListAttemptsRowView {
            event_id: self.event_id@,
            attempt_id: self.attempt_id.deep_view(),
            attempt_no: self.attempt_no,
            started_at: self.started_at.deep_view(),
            finished_at: self.finished_at.deep_view(),
            request_headers: self.request_headers.deep_view(),
            request_body: self.request_body.deep_view(),
            response_status: self.response_status,
            response_headers: self.response_headers.deep_view(),
            response_body: self.response_body.deep_view(),
            error_kind: self.error_kind.deep_view(),
            error_message: self.error_message.deep_view(),
        }
    }
}

/// Why an operation on the store did not go through.
#[derive(Debug, Clone, PartialEq, Eq)]
pub enum StoreError {
    /// The database refused a statement.
    Db(String),
    /// The caller does not hold what the operation needs.
    Conflict(String),
    /// No such row.
    NotFound(String),
    /// A persisted row cannot be read: the data is corrupt.
    Parse(String),
}

pub enum StoreErrorView {
    Db(Seq<char>),
    Conflict(Seq<char>),
    NotFound(Seq<char>),
    Parse(Seq<char>),
}

impl View for StoreError {
    type V = StoreErrorView;

    open spec fn view(&self) -> StoreErrorView {
        match self {
            StoreError::Db(m) => StoreErrorView::Db(m@),
            StoreError::Conflict(m) => StoreErrorView::Conflict(m@),
            StoreError::NotFound(m) => StoreErrorView::NotFound(m@),
            StoreError::Parse(m) => StoreErrorView::Parse(m@),
        }
    }
}

/// The store: four tables, each in the order its rows were inserted.
#[derive(Debug, Clone, PartialEq, Eq)]
pub struct Store {
    pub endpoints: Vec<EndpointRow>,
    pub events: Vec<EventRow>,
    pub attempts: Vec<AttemptRow>,
    pub circuits: Vec<CircuitRow>,
}

pub struct StoreView {
    pub endpoints: Seq<EndpointRowView>,
    pub events: Seq<EventRowView>,
    pub attempts: Seq<AttemptRowView>,
    pub circuits: Seq<CircuitRowView>,
}

impl View for Store {
    type V = StoreView;

    open spec fn view(&self) -> StoreView {
        StoreView {
            endpoints: self.endpoints@.map_values(|r: EndpointRow| r@),
            events: self.events@.map_values(|r: EventRow| r@),
            attempts: self.attempts@.map_values(|r: AttemptRow| r@),
            circuits: self.circuits@.map_values(|r: CircuitRow| r@),
        }
    }
}

/// The first position at or after `from` where `keys` holds `key`.
pub open spec fn position_from(keys: Seq<Seq<char>>, key: Seq<char>, from: int) -> Option<int>
    decreases keys.len() - from,
{
    if from < 0 || from >= keys.len() {
        None
    } else if keys[from] == key {
        Some(from)
    } else {
        position_from(keys, key, from + 1)
    }
}

/// The first position where `keys` holds `key`.
pub open spec fn position(keys: Seq<Seq<char>>, key: Seq<char>) -> Option<int> {
    position_from(keys, key, 0)
}

/// No key occurs twice.
pub open spec fn distinct(keys: Seq<Seq<char>>) -> bool {
    forall|i: int, j: int| 0 <= i < j < keys.len() ==> keys[i] != keys[j]
}

pub proof fn lemma_position_from(keys: Seq<Seq<char>>, key: Seq<char>, from: int)
    requires
        0 <= from,
    ensures
        match position_from(keys, key, from) {
            Some(i) => from <= i < keys.len() && keys[i] == key && forall|j: int|
                from <= j < i ==> keys[j] != key,
            None => forall|j: int| from <= j < keys.len() ==> keys[j] != key,
        },
    decreases keys.len() - from,
{
    if from < keys.len() && keys[from] != key {
        lemma_position_from(keys, key, from + 1);
    }
}

/// `position` finds the key where it first stands, and finds nothing only
/// where the key stands nowhere.
pub proof fn lemma_position(keys: Seq<Seq<char>>, key: Seq<char>)
    ensures
        match position(keys, key) {
            Some(i) => 0 <= i < keys.len() && keys[i] == key && forall|j: int|
                0 <= j < i ==> keys[j] != key,
            None => forall|j: int| 0 <= j < keys.len() ==> keys[j] != key,
        },
{
    lemma_position_from(keys, key, 0);
}

impl StoreView {
    /// The event at position `i`, joined with its endpoint and circuit. In
    /// well-formed tables every event has its endpoint.
    pub open spec fn joined_event(self, i: int) -> JoinedEventView {
        let e = self.events[i];
        let target_url = match position(self.endpoint_ids(), e.endpoint_id) {
            Some(k) => self.endpoints[k].target_url,
            None => Seq::empty(),
        };
        match position(self.circuit_keys(), e.endpoint_id) {
            Some(k) => JoinedEventView {
                event: e,
                target_url,
                circuit_state: Some(self.circuits[k].state),
                circuit_open_until: self.circuits[k].open_until,
                circuit_consecutive_failures: Some(self.circuits[k].consecutive_failures),
                circuit_last_failure_at: self.circuits[k].last_failure_at,
            },
            None => JoinedEventView {
                event: e,
                target_url,
                circuit_state: None,
                circuit_open_until: None,
                circuit_consecutive_failures: None,
                circuit_last_failure_at: None,
            },
        }
    }

    /// The ids of the endpoints, in table order.
    pub open spec fn endpoint_ids(self) -> Seq<Seq<char>> {
        Seq::new(self.endpoints.len(), |i: int| self.endpoints[i].id)
    }

    /// The ids of the events, in table order.
    pub open spec fn event_ids(self) -> Seq<Seq<char>> {
        Seq::new(self.events.len(), |i: int| self.events[i].id)
    }

    /// The endpoints that have a circuit row, in table order.
    pub open spec fn circuit_keys(self) -> Seq<Seq<char>> {
        Seq::new(self.circuits.len(), |i: int| self.circuits[i].endpoint_id)
    }

    /// What the schema's keys ask of the tables: ids are unique within
    /// `endpoints` and `webhook_events`, an endpoint has at most one circuit
    /// row, and every event points at an endpoint.
    pub open spec fn wf(self) -> bool {
        &&& distinct(self.endpoint_ids())
        &&& distinct(self.event_ids())
        &&& distinct(self.circuit_keys())
        &&& forall|i: int|
            0 <= i < self.events.len() ==> position(
                self.endpoint_ids(),
                (#[trigger] self.events[i]).endpoint_id,
            ) is Some
    }

    /// Every event is stored under its id as `uuid` writes it: lower case,
    /// hyphenated. Ids stored otherwise may read as the same number under
    /// different texts.
    pub open spec fn event_ids_as_written(self) -> bool {
        forall|i: int| 0 <= i < self.events.len() ==> as_written((#[trigger] self.events[i]).id)
    }

    /// `post` has the rows of `self` under the same keys: what may differ is
    /// what the rows of events and circuits hold beside their keys.
    pub open spec fn same_keys(self, post: StoreView) -> bool {
        &&& post.endpoints == self.endpoints
        &&& post.attempts == self.attempts
        &&& post.events.len() == self.events.len()
        &&& post.circuits.len() == self.circuits.len()
        &&& forall|i: int|
            0 <= i < self.events.len() ==> (#[trigger] post.events[i]).id == self.events[i].id
                && post.events[i].endpoint_id == self.events[i].endpoint_id
        &&& forall|i: int|
            0 <= i < self.circuits.len() ==> (#[trigger] post.circuits[i]).endpoint_id
                == self.circuits[i].endpoint_id
    }
}

/// Rewriting rows under their keys keeps the tables well-formed.
pub proof fn lemma_same_keys_wf(pre: StoreView, post: StoreView)
    requires
        pre.wf(),
        pre.same_keys(post),
    ensures
        post.wf(),
        post.event_ids() == pre.event_ids(),
        post.endpoint_ids() == pre.endpoint_ids(),
        post.circuit_keys() == pre.circuit_keys(),
{
    assert(post.event_ids() =~= pre.event_ids());
    assert(post.endpoint_ids() =~= pre.endpoint_ids());
    assert(post.circuit_keys() =~= pre.circuit_keys());
    assert forall|i: int| 0 <= i < post.events.len() implies position(
        post.endpoint_ids(),
        (#[trigger] post.events[i]).endpoint_id,
    ) is Some by {
        assert(pre.events[i].endpoint_id == post.events[i].endpoint_id);
    }
}

impl Store {
    /// See `StoreView::wf`.
    pub open spec fn wf(&self) -> bool {
        self@.wf()
    }

    /// A store with no rows.
    pub fn new() -> (r: Store)
        ensures
            r@.endpoints.len() == 0,
            r@.events.len() == 0,
            r@.attempts.len() == 0,
            r@.circuits.len() == 0,
            r.wf(),
    {
        Store { endpoints: Vec::new(), events: Vec::new(), attempts: Vec::new(), circuits: Vec::new() }
    }

    /// Whether the tables are well-formed.
    pub fn is_well_formed(&self) -> (r: bool)
        ensures
            r == self.wf(),
    {
        let mut i: usize = 0;
        while i < self.endpoints.len()
            invariant
                i <= self.endpoints.len(),
                forall|a: int, b: int|
                    0 <= a < b < self@.endpoints.len() && a < i ==> self@.endpoint_ids()[a]
                        != self@.endpoint_ids()[b],
            decreases self.endpoints.len() - i,
        {
            let mut j: usize = i + 1;
            while j < self.endpoints.len()
                invariant
                    i < j <= self.endpoints.len(),
                    forall|b: int| i < b < j ==> self@.endpoint_ids()[i as int]
                        != self@.endpoint_ids()[b],
                decreases self.endpoints.len() - j,
            {
                if str_eq(self.endpoints[i].id.as_str(), self.endpoints[j].id.as_str()) {
                    assert(self@.endpoint_ids()[i as int] == self@.endpoint_ids()[j as int]);
                    return false;
                }
                j = j + 1;
            }
            i = i + 1;
        }
        let mut i: usize = 0;
        while i < self.events.len()
            invariant
                i <= self.events.len(),
                distinct(self@.endpoint_ids()),
                forall|a: int, b: int|
                    0 <= a < b < self@.events.len() && a < i ==> self@.event_ids()[a]
                        != self@.event_ids()[b],
                forall|a: int|
                    0 <= a < i ==> position(
                        self@.endpoint_ids(),
                        (#[trigger] self@.events[a]).endpoint_id,
                    ) is Some,
            decreases self.events.len() - i,
        {
            if self.find_endpoint(self.events[i].endpoint_id.as_str()).is_none() {
                assert(self@.events[i as int].endpoint_id == self.events[i as int].endpoint_id@);
                return false;
            }
            let mut j: usize = i + 1;
            while j < self.events.len()
                invariant
                    i < j <= self.events.len(),
                    forall|b: int| i < b < j ==> self@.event_ids()[i as int] != self@.event_ids()[b],
                decreases self.events.len() - j,
            {
                if str_eq(self.events[i].id.as_str(), self.events[j].id.as_str()) {
                    assert(self@.event_ids()[i as int] == self@.event_ids()[j as int]);
                    return false;
                }
                j = j + 1;
            }
            i = i + 1;
        }
        let mut i: usize = 0;
        while i < self.circuits.len()
            invariant
                i <= self.circuits.len(),
                distinct(self@.endpoint_ids()),
                distinct(self@.event_ids()),
                forall|a: int|
                    0 <= a < self@.events.len() ==> position(
                        self@.endpoint_ids(),
                        (#[trigger] self@.events[a]).endpoint_id,
                    ) is Some,
                forall|a: int, b: int|
                    0 <= a < b < self@.circuits.len() && a < i ==> self@.circuit_keys()[a]
                        != self@.circuit_keys()[b],
            decreases self.circuits.len() - i,
        {
            let mut j: usize = i + 1;
            while j < self.circuits.len()
                invariant
                    i < j <= self.circuits.len(),
                    forall|b: int| i < b < j ==> self@.circuit_keys()[i as int]
                        != self@.circuit_keys()[b],
                decreases self.circuits.len() - j,
            {
                if str_eq(
                    self.circuits[i].endpoint_id.as_str(),
                    self.circuits[j].endpoint_id.as_str(),
                ) {
                    assert(self@.circuit_keys()[i as int] == self@.circuit_keys()[j as int]);
                    return false;
                }
                j = j + 1;
            }
            i = i + 1;
        }
        true
    }

    /// The event at position `i`, joined with its endpoint and circuit.
    pub fn joined_event(&self, i: usize) -> (r: JoinedEvent)
        requires
            self.wf(),
            i < self@.events.len(),
        ensures
            r@ == self@.joined_event(i as int),
    {
        let event = self.events[i].duplicate();
        assert(self@.events[i as int] == self.events[i as int]@);
        let target_url = match self.find_endpoint(event.endpoint_id.as_str()) {
            Some(k) => copy_text(self.endpoints[k].target_url.as_str()),
            None => unreached(),
        };
        match self.find_circuit(event.endpoint_id.as_str()) {
            Some(k) => {
                let c = &self.circuits[k];
                JoinedEvent {
                    event,
                    target_url,
                    circuit_state: Some(copy_text(c.state.as_str())),
                    circuit_open_until: copy_opt_text(&c.open_until),
                    circuit_consecutive_failures: Some(c.consecutive_failures),
                    circuit_last_failure_at: copy_opt_text(&c.last_failure_at),
                }
            },
            None => JoinedEvent {
                event,
                target_url,
                circuit_state: None,
                circuit_open_until: None,
                circuit_consecutive_failures: None,
                circuit_last_failure_at: None,
            },
        }
    }

    /// The position of the endpoint with this id.
    pub fn find_endpoint(&self, id: &str) -> (r: Option<usize>)
        ensures
            position(self@.endpoint_ids(), id@) == match r {
                Some(i) => Some(i as int),
                None => None,
            },
            r matches Some(i) ==> i < self.endpoints.len() && self@.endpoints[i as int].id == id@,
    {
        let ghost keys = self@.endpoint_ids();
        let mut i: usize = 0;
        while i < self.endpoints.len()
            invariant
                i <= self.endpoints.len(),
                keys == self@.endpoint_ids(),
                position(keys, id@) == position_from(keys, id@, i as int),
            decreases self.endpoints.len() - i,
        {
            if str_eq(self.endpoints[i].id.as_str(), id) {
                return Some(i);
            }
            i = i + 1;
        }
        None
    }

    /// The position of the event with this id.
    pub fn find_event(&self, id: &str) -> (r: Option<usize>)
        ensures
            position(self@.event_ids(), id@) == match r {
                Some(i) => Some(i as int),
                None => None,
            },
            r matches Some(i) ==> i < self.events.len() && self@.events[i as int].id == id@,
    {
        let ghost keys = self@.event_ids();
        let mut i: usize = 0;
        while i < self.events.len()
            invariant
                i <= self.events.len(),
                keys == self@.event_ids(),
                position(keys, id@) == position_from(keys, id@, i as int),
            decreases self.events.len() - i,
        {
            if str_eq(self.events[i].id.as_str(), id) {
                return Some(i);
            }
            i = i + 1;
        }
        None
    }

    /// The position of the circuit row of this endpoint.
    pub fn find_circuit(&self, endpoint_id: &str) -> (r: Option<usize>)
        ensures
            position(self@.circuit_keys(), endpoint_id@) == match r {
                Some(i) => Some(i as int),
                None => None,
            },
            r matches Some(i) ==> i < self.circuits.len() && self@.circuits[i as int].endpoint_id
                == endpoint_id@,
    {
        let ghost keys = self@.circuit_keys();
        let mut i: usize = 0;
        while i < self.circuits.len()
            invariant
                i <= self.circuits.len(),
                keys == self@.circuit_keys(),
                position(keys, endpoint_id@) == position_from(keys, endpoint_id@, i as int),
            decreases self.circuits.len() - i,
        {
            if str_eq(self.circuits[i].endpoint_id.as_str(), endpoint_id) {
                return Some(i);
            }
            i = i + 1;
        }
        None
    }
}

} // verus!
