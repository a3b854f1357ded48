//! Scenario managers: the beam expander driven by a predictor, one per
//! domain, each reporting its overlays in the domain's own terms.

pub mod manufacturing;
pub mod retail;

pub use crate::beam::ScenarioMeta;
use crate::beam::{expanded, Beam, BeamParams, ConfigError, Overlay};
use crate::event::ScenarioId;
use crate::prob::{fits_i64, scale_i64, scaled, Prob, Ratio, FIXED_ONE};
use crate::predictors::SpendDeltaPredictor;
use crate::retail::OrderPlaced;
use vstd::prelude::*;

verus! {

/// The predictor's delta scaled by `multiplier` (unless it is exactly one)
/// and raised to at least `floor`; a scaled delta beyond the range of `i64`
/// is replaced by the floor.
pub open spec fn adjusted_delta(raw: i64, multiplier: Ratio, floor: i64) -> i64 {
    let d = if multiplier.0 == FIXED_ONE as i64 {
        raw as int
    } else {
        scaled(raw as int, multiplier)
    };
    if !fits_i64(d) || d < floor {
        floor
    } else {
        d as i64
    }
}

pub fn adjust_delta(raw: i64, multiplier: Ratio, floor: i64) -> (r: i64)
    ensures
        r == adjusted_delta(raw, multiplier, floor),
{
    let d: i128 = if multiplier.0 == FIXED_ONE as i64 {
        raw as i128
    } else {
        scale_i64(raw, multiplier)
    };
    if d < i64::MIN as i128 || d > i64::MAX as i128 || d < floor as i128 {
        floor
    } else {
        d as i64
    }
}

/// The `(id, weight)` pairs of an active set, in order.
pub fn weights_of(active: &Vec<ScenarioMeta>) -> (r: Vec<(ScenarioId, Prob)>)
    ensures
        r@.len() == active@.len(),
        forall|i: int| 0 <= i < r@.len() ==> #[trigger] r@[i] == (active@[i].id, active@[i].weight),
{
    let mut out: Vec<(ScenarioId, Prob)> = Vec::new();
    let mut i: usize = 0;
    while i < active.len()
        invariant
            i <= active@.len(),
            out@.len() == i,
            forall|j: int| 0 <= j < i ==> #[trigger] out@[j] == (active@[j].id, active@[j].weight),
        decreases active@.len() - i,
    {
        out.push((active[i].id, active[i].weight));
        i = i + 1;
    }
    out
}

/// A retail overlay: the predicted spend delta of one customer in one scenario.
#[derive(Debug, Clone, Copy, PartialEq, Eq, Structural)]
pub struct ScenarioDelta {
    pub scenario_id: ScenarioId,
    pub customer_id: u64,
    pub delta_cents: i64,
}

impl ScenarioDelta {
    pub open spec fn as_overlay(self) -> Overlay {
        Overlay { scenario_id: self.scenario_id, key: self.customer_id, delta: self.delta_cents }
    }
}

pub open spec fn scenario_deltas_as_overlays(ds: Seq<ScenarioDelta>) -> Seq<Overlay> {
    ds.map_values(|d: ScenarioDelta| d.as_overlay())
}

fn scenario_deltas_from(ovs: &Vec<Overlay>) -> (r: Vec<ScenarioDelta>)
    ensures
        scenario_deltas_as_overlays(r@) == ovs@,
{
    let mut out: Vec<ScenarioDelta> = Vec::new();
    let mut i: usize = 0;
    while i < ovs.len()
        invariant
            i <= ovs@.len(),
            scenario_deltas_as_overlays(out@) == ovs@.take(i as int),
        decreases ovs@.len() - i,
    {
        let o = ovs[i];
        let ghost before = out@;
        out.push(ScenarioDelta { scenario_id: o.scenario_id, customer_id: o.key, delta_cents: o.delta });
        assert(scenario_deltas_as_overlays(out@) =~= scenario_deltas_as_overlays(before).push(o));
        assert(ovs@.take(i + 1) =~= ovs@.take(i as int).push(o));
        i = i + 1;
    }
    assert(ovs@.take(i as int) =~= ovs@);
    out
}

/// Beam parameters of the spend-driven manager.
#[derive(Debug, Clone, Copy, PartialEq, Eq, Structural)]
pub struct BeamConfig {
    pub max_depth: u32,
    pub beam_width: usize,
    pub min_prob: Prob,
    pub branch_prob: Prob,
    pub delta_multiplier: Ratio,
    pub min_delta_cents: i64,
}

impl Default for BeamConfig {
    fn default() -> (r: BeamConfig)
        ensures
            r == (BeamConfig {
                max_depth: 5,
                beam_width: 32,
                min_prob: Prob(100_000_000),
                branch_prob: Prob(500_000_000),
                delta_multiplier: Ratio(300_000_000),
                min_delta_cents: 3_000,
            }),
    {
        BeamConfig {
            max_depth: 5,
            beam_width: 32,
            min_prob: Prob(100_000_000),
            branch_prob: Prob(500_000_000),
            delta_multiplier: Ratio(300_000_000),
            min_delta_cents: 3_000,
        }
    }
}

impl BeamConfig {
    pub open spec fn spec_beam_params(self) -> BeamParams {
        BeamParams {
            max_depth: self.max_depth,
            beam_width: self.beam_width,
            min_prob: self.min_prob,
            branch_prob: self.branch_prob,
        }
    }

    pub fn beam_params(&self) -> (r: BeamParams)
        ensures
            r == self.spec_beam_params(),
    {
        BeamParams {
            max_depth: self.max_depth,
            beam_width: self.beam_width,
            min_prob: self.min_prob,
            branch_prob: self.branch_prob,
        }
    }

    /// Accepts the configuration when both probabilities lie in `[0, 1]`.
    pub fn validate(&self) -> (r: Result<(), ConfigError>)
        ensures
            r is Ok <==> self.spec_beam_params().valid(),
    {
        self.beam_params().check()
    }
}

/// What one call of `expand_order` reports.
#[derive(Debug)]
pub struct ExpansionOutcome {
    pub created: Vec<ScenarioMeta>,
    pub retired: Vec<ScenarioMeta>,
    pub overlays_added: Vec<ScenarioDelta>,
    pub overlays_removed: Vec<ScenarioDelta>,
}

/// The beam over retail orders, with a spend predictor.
pub struct ScenarioManager<P: SpendDeltaPredictor> {
    cfg: BeamConfig,
    predictor: P,
    beam: Beam,
}

impl<P: SpendDeltaPredictor> ScenarioManager<P> {
    pub closed spec fn spec_beam(&self) -> Beam {
        self.beam
    }

    pub closed spec fn spec_config(&self) -> BeamConfig {
        self.cfg
    }

    pub closed spec fn spec_predictor(&self) -> P {
        self.predictor
    }

    pub open spec fn wf(&self) -> bool {
        &&& self.spec_beam().wf()
        &&& self.spec_beam().spec_params() == self.spec_config().spec_beam_params()
    }

    /// A manager with no active scenario; ids start at 1.
    pub fn new(cfg: BeamConfig, predictor: P) -> (r: Self)
        requires
            cfg.spec_beam_params().valid(),
        ensures
            r.wf(),
            r.spec_config() == cfg,
            r.spec_predictor() == predictor,
            r.spec_beam().spec_next_id() == 1,
            r.spec_beam().spec_active().len() == 0,
            r.spec_beam().spec_overlays().is_empty(),
    {
        let params = cfg.beam_params();
        ScenarioManager { cfg, predictor, beam: Beam::new(params) }
    }

    /// One beam step for `order`: the overlays go to the order's customer
    /// with the adjusted predicted delta.
    pub fn expand_order(&mut self, order: &OrderPlaced) -> (r: ExpansionOutcome)
        requires
            old(self).wf(),
        ensures
            final(self).wf(),
            final(self).spec_config() == old(self).spec_config(),
            final(self).spec_predictor() == old(self).spec_predictor(),
            expanded(
                old(self).spec_beam(),
                final(self).spec_beam(),
                r.created@,
                r.retired@,
                scenario_deltas_as_overlays(r.overlays_added@),
                scenario_deltas_as_overlays(r.overlays_removed@),
                order.customer_id,
                adjusted_delta(
                    old(self).spec_predictor().spec_predict_delta(*order),
                    old(self).spec_config().delta_multiplier,
                    old(self).spec_config().min_delta_cents,
                ),
            ),
    {
        let delta = self.predict_delta(order);
        let step = self.beam.expand(order.customer_id, delta);
        let overlays_added = scenario_deltas_from(&step.overlays_added);
        let overlays_removed = scenario_deltas_from(&step.overlays_removed);
        ExpansionOutcome { created: step.created, retired: step.retired, overlays_added, overlays_removed }
    }

    /// The `(id, weight)` pairs of the active set, best first.
    pub fn active_weights(&self) -> (r: Vec<(ScenarioId, Prob)>)
        ensures
            r@.len() == self.spec_beam().spec_active().len(),
            forall|i: int|
                0 <= i < r@.len() ==> #[trigger] r@[i] == (
                    self.spec_beam().spec_active()[i].id,
                    self.spec_beam().spec_active()[i].weight,
                ),
    {
        weights_of(self.beam.active())
    }

    fn predict_delta(&self, order: &OrderPlaced) -> (r: i64)
        ensures
            r == adjusted_delta(
                self.predictor.spec_predict_delta(*order),
                self.cfg.delta_multiplier,
                self.cfg.min_delta_cents,
            ),
    {
        let raw = self.predictor.predict_delta(order);
        adjust_delta(raw, self.cfg.delta_multiplier, self.cfg.min_delta_cents)
    }
}

} // verus!
