//! Event envelopes and predicted events.

use crate::prob::Prob;
use vstd::prelude::*;

verus! {

pub type Epoch = u64;

pub type Depth = u32;

pub type ScenarioId = u64;

/// What every event carries besides its payload.
#[derive(Debug, Clone, PartialEq, Eq)]
pub struct EventMeta {
    pub domain: String,
    pub kind: String,
    pub epoch: Epoch,
    pub source: String,
    pub key: Option<String>,
}

#[derive(Debug, Clone, PartialEq, Eq)]
pub struct EventEnvelope<T> {
    pub meta: EventMeta,
    pub payload: T,
}

/// An event that a predictor expects in a child scenario.
#[derive(Debug, Clone, PartialEq, Eq)]
pub struct Predicted<T> {
    pub parent_scenario: ScenarioId,
    pub child_scenario: ScenarioId,
    pub depth: Depth,
    pub prob: Prob,
    pub event: EventEnvelope<T>,
}

} // verus!
