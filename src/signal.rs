//! A decoded signal: its name, the edge it reacts to, and its states.
use vstd::prelude::*;

verus! {

pub struct Signal {
    pub name: String,
    pub edge_direction: Option<EdgeDirection>,
    pub states: Vec<SignalState>,
}

#[derive(Debug, Clone, Copy, PartialEq, Eq, Structural)]
pub enum EdgeDirection {
    Positive,
    Negative,
}

pub enum SignalState {
    High,
    Low,
    Value(String),
}

} // verus!
