use vstd::prelude::*;
use crate::text::str_eq;

verus! {

/// Whether deliveries to an endpoint are let through or held back.
#[derive(Debug, Clone, Copy, PartialEq, Eq, Structural)]
pub enum TargetCircuitStatus {
    Closed,
    Open,
}

/// The breaker of one endpoint.
#[derive(Debug, Clone, PartialEq, Eq)]
pub struct TargetCircuitState {
    pub endpoint_id: u128,
    pub state: TargetCircuitStatus,
    /// An open circuit without an `open_until` stays open until it is reset.
    pub open_until: Option<String>,
    pub consecutive_failures: i64,
    pub last_failure_at: Option<String>,
}

/// What a `TargetCircuitState` holds.
pub struct TargetCircuitStateView {
    pub endpoint_id: u128,
    pub state: TargetCircuitStatus,
    pub open_until: Option<Seq<char>>,
    pub consecutive_failures: i64,
    pub last_failure_at: Option<Seq<char>>,
}

impl View for TargetCircuitState {
    type V = TargetCircuitStateView;

    open spec fn view(&self) -> TargetCircuitStateView {
        TargetCircuitStateView {
            endpoint_id: self.endpoint_id,
            state: self.state,
            open_until: self.open_until.deep_view(),
            consecutive_failures: self.consecutive_failures,
            last_failure_at: self.last_failure_at.deep_view(),
        }
    }
}

/// The view of a circuit that may be absent.
pub open spec fn circuit_view(circuit: Option<TargetCircuitState>) -> Option<
    TargetCircuitStateView,
> {
    match circuit {
        Some(c) => Some(c@),
        None => None,
    }
}


impl TargetCircuitStatus {
    /// The state as the store and the wire spell it.
    pub open spec fn text(self) -> Seq<char> {
        match self {
            TargetCircuitStatus::Closed => "closed"@,
            TargetCircuitStatus::Open => "open"@,
        }
    }

    /// The state that a text spells, if it spells one.
    pub open spec fn from_text(text: Seq<char>) -> Option<TargetCircuitStatus> {
        if text == "closed"@ {
            Some(TargetCircuitStatus::Closed)
        } else if text == "open"@ {
            Some(TargetCircuitStatus::Open)
        } else {
            None
        }
    }

    /// The state as the store and the wire spell it.
    pub fn as_str(self) -> (r: &'static str)
        ensures
            r@ == self.text(),
    {
        match self {
            TargetCircuitStatus::Closed => "closed",
            TargetCircuitStatus::Open => "open",
        }
    }

    /// Reads a state; `None` for any text that spells none.
    pub fn parse(text: &str) -> (r: Option<TargetCircuitStatus>)
        ensures
            r == TargetCircuitStatus::from_text(text@),
    {
        if str_eq(text, "closed") {
            Some(TargetCircuitStatus::Closed)
        } else if str_eq(text, "open") {
            Some(TargetCircuitStatus::Open)
        } else {
            None
        }
    }

    /// Every state is read back from its own spelling, and no two share one.
    pub proof fn lemma_text_round_trip(self)
        ensures
            TargetCircuitStatus::from_text(self.text()) == Some(self),
    {
        reveal_strlit("closed");
        assert("closed"@.len() == 6 && "closed"@[0] == 'c');
        reveal_strlit("open");
        assert("open"@.len() == 4 && "open"@[0] == 'o');
    }
}

} // verus!
