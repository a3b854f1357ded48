//! Predictors: pure maps from a domain event to an integer delta.

use crate::event::{Depth, EventEnvelope, Predicted, ScenarioId};
use crate::manufacturing::OperationStart;
use crate::prob::{fits_i64, scale_i64, scale_u64, scaled, Prob, Ratio, FIXED_ONE};
use crate::retail::OrderPlaced;
use vstd::prelude::*;

verus! {

/// anyhow::Error, the error a predictor may report; carried through unread.
#[verifier::external_type_specification]
#[verifier::external_body]
pub struct ExAnyhowError(anyhow::Error);

/// A predictor consumes view changes and produces candidate future events
/// for expansion. Implementations may fail.
pub trait Predictor<T> where T: Clone + Send + Sync + 'static {
    fn predict(
        &self,
        parent: ScenarioId,
        next_depth: Depth,
        context: &EventEnvelope<T>,
    ) -> Result<Vec<Predicted<T>>, anyhow::Error>;
}

/// A pass-through predictor: one certain child, numbered after its parent,
/// that repeats the context event.
pub struct NoopPredictor;

impl<T> Predictor<T> for NoopPredictor where T: Clone + Send + Sync + 'static {
    fn predict(
        &self,
        parent: ScenarioId,
        next_depth: Depth,
        context: &EventEnvelope<T>,
    ) -> (r: Result<Vec<Predicted<T>>, anyhow::Error>)
        ensures
            r is Ok,
            r->Ok_0@.len() == 1,
            r->Ok_0@[0].parent_scenario == parent,
            r->Ok_0@[0].child_scenario == parent.wrapping_add(1),
            r->Ok_0@[0].depth == next_depth,
            r->Ok_0@[0].prob == Prob(FIXED_ONE),
    {
        let pred = Predicted {
            parent_scenario: parent,
            child_scenario: parent.wrapping_add(1),
            depth: next_depth,
            prob: Prob::one(),
            event: context.clone(),
        };
        let mut out: Vec<Predicted<T>> = Vec::new();
        out.push(pred);
        Ok(out)
    }
}

/// Predicts the spend delta that an order foreshadows, in cents.
pub trait SpendDeltaPredictor: Send + Sync + 'static {
    /// The delta predicted for `order`.
    spec fn spec_predict_delta(&self, order: OrderPlaced) -> i64;

    fn predict_delta(&self, order: &OrderPlaced) -> (r: i64)
        ensures
            r == self.spec_predict_delta(*order),
    ;
}

/// Predicts spend growth as a fixed share of the order total, with a floor.
#[derive(Debug, Clone, Copy)]
pub struct SpendGrowthPredictor {
    pub uplift_ratio: Ratio,
    pub min_delta_cents: i64,
}

impl Default for SpendGrowthPredictor {
    fn default() -> (r: SpendGrowthPredictor)
        ensures
            r.uplift_ratio == Ratio(300_000_000),
            r.min_delta_cents == 3_000,
    {
        SpendGrowthPredictor { uplift_ratio: Ratio(300_000_000), min_delta_cents: 3_000 }
    }
}

/// `max(round(max(total, 1) * uplift), floor)`; an uplift beyond the range
/// of `i64` is replaced by the floor.
pub open spec fn spend_growth(total: i64, uplift: Ratio, floor: i64) -> i64 {
    let base: i64 = if total < 1 { 1 } else { total };
    let up = scaled(base as int, uplift);
    if !fits_i64(up) || up < floor { floor } else { up as i64 }
}

impl SpendDeltaPredictor for SpendGrowthPredictor {
    open spec fn spec_predict_delta(&self, order: OrderPlaced) -> i64 {
        spend_growth(order.spec_total_cents(), self.uplift_ratio, self.min_delta_cents)
    }

    fn predict_delta(&self, order: &OrderPlaced) -> (r: i64) {
        let total = order.total_cents();
        let base: i64 = if total < 1 { 1 } else { total };
        let uplift = scale_i64(base, self.uplift_ratio);
        if uplift < i64::MIN as i128 || uplift > i64::MAX as i128 || uplift < self.min_delta_cents as i128 {
            self.min_delta_cents
        } else {
            uplift as i64
        }
    }
}

/// Predicts the work-in-progress growth that an operation start foreshadows.
pub trait MachineBacklogPredictor: Send + Sync + 'static {
    /// The backlog delta predicted for `op`.
    spec fn spec_predict_backlog(&self, op: OperationStart) -> i64;

    fn predict_backlog(&self, op: &OperationStart) -> (r: i64)
        ensures
            r == self.spec_predict_backlog(*op),
    ;
}

/// Predicts backlog growth from a base amount plus a share of the expected
/// duration, with a floor.
#[derive(Debug, Clone, Copy)]
pub struct QueueGrowthPredictor {
    pub base_units: i64,
    pub duration_multiplier: Ratio,
    pub min_delta_units: i64,
}

impl Default for QueueGrowthPredictor {
    fn default() -> (r: QueueGrowthPredictor)
        ensures
            r.base_units == 1,
            r.duration_multiplier == Ratio(1_000_000),
            r.min_delta_units == 2,
    {
        QueueGrowthPredictor { base_units: 1, duration_multiplier: Ratio(1_000_000), min_delta_units: 2 }
    }
}

/// `max(base + round(duration * multiplier), floor)`; an estimate beyond the
/// range of `i64` is replaced by the floor.
pub open spec fn queue_growth(duration_ms: u64, base: i64, multiplier: Ratio, floor: i64) -> i64 {
    let estimate = base + scaled(duration_ms as int, multiplier);
    if !fits_i64(estimate) || estimate < floor { floor } else { estimate as i64 }
}

impl MachineBacklogPredictor for QueueGrowthPredictor {
    open spec fn spec_predict_backlog(&self, op: OperationStart) -> i64 {
        queue_growth(op.expected_duration_ms, self.base_units, self.duration_multiplier, self.min_delta_units)
    }

    fn predict_backlog(&self, op: &OperationStart) -> (r: i64) {
        let duration_component = scale_u64(op.expected_duration_ms, self.duration_multiplier);
        let estimate = (self.base_units as i128) + duration_component;
        if estimate < i64::MIN as i128 || estimate > i64::MAX as i128 || estimate < self.min_delta_units as i128 {
            self.min_delta_units
        } else {
            estimate as i64
        }
    }
}

} // verus!
