//! The manufacturing scenario manager.

use crate::beam::{expanded, Beam, BeamParams, ConfigError, Overlay};
use crate::event::ScenarioId;
use crate::manufacturing::OperationStart;
use crate::predictors::MachineBacklogPredictor;
use crate::prob::{Prob, Ratio};
use crate::scenarios::{adjust_delta, adjusted_delta, weights_of, ScenarioMeta};
use vstd::prelude::*;

verus! {

/// A manufacturing overlay: the predicted work-in-progress delta of one
/// machine in one scenario.
#[derive(Debug, Clone, Copy, PartialEq, Eq, Structural)]
pub struct ManufacturingScenarioDelta {
    pub scenario_id: ScenarioId,
    pub machine_id: u64,
    pub delta_wip: i64,
}

impl ManufacturingScenarioDelta {
    pub open spec fn as_overlay(self) -> Overlay {
        Overlay { scenario_id: self.scenario_id, key: self.machine_id, delta: self.delta_wip }
    }
}

pub open spec fn manufacturing_deltas_as_overlays(ds: Seq<ManufacturingScenarioDelta>) -> Seq<Overlay> {
    ds.map_values(|d: ManufacturingScenarioDelta| d.as_overlay())
}

fn manufacturing_deltas_from(ovs: &Vec<Overlay>) -> (r: Vec<ManufacturingScenarioDelta>)
    ensures
        manufacturing_deltas_as_overlays(r@) == ovs@,
{
    let mut out: Vec<ManufacturingScenarioDelta> = Vec::new();
    let mut i: usize = 0;
    while i < ovs.len()
        invariant
            i <= ovs@.len(),
            manufacturing_deltas_as_overlays(out@) == ovs@.take(i as int),
        decreases ovs@.len() - i,
    {
        let o = ovs[i];
        let ghost before = out@;
        out.push(ManufacturingScenarioDelta { scenario_id: o.scenario_id, machine_id: o.key, delta_wip: o.delta });
        assert(manufacturing_deltas_as_overlays(out@) =~= manufacturing_deltas_as_overlays(before).push(o));
        assert(ovs@.take(i + 1) =~= ovs@.take(i as int).push(o));
        i = i + 1;
    }
    assert(ovs@.take(i as int) =~= ovs@);
    out
}

/// Beam parameters of the manufacturing manager.
#[derive(Debug, Clone, Copy, PartialEq, Eq, Structural)]
pub struct ManufacturingBeamConfig {
    pub max_depth: u32,
    pub beam_width: usize,
    pub min_prob: Prob,
    pub branch_prob: Prob,
    pub delta_multiplier: Ratio,
    pub min_delta_units: i64,
}

impl Default for ManufacturingBeamConfig {
    fn default() -> (r: ManufacturingBeamConfig)
        ensures
            r == (ManufacturingBeamConfig {
                max_depth: 4,
                beam_width: 16,
                min_prob: Prob(100_000_000),
                branch_prob: Prob(450_000_000),
                delta_multiplier: Ratio(500_000_000),
                min_delta_units: 2,
            }),
    {
        ManufacturingBeamConfig {
            max_depth: 4,
            beam_width: 16,
            min_prob: Prob(100_000_000),
            branch_prob: Prob(450_000_000),
            delta_multiplier: Ratio(500_000_000),
            min_delta_units: 2,
        }
    }
}

impl ManufacturingBeamConfig {
    pub open spec fn spec_beam_params(self) -> BeamParams {
        BeamParams {
            max_depth: self.max_depth,
            beam_width: self.beam_width,
            min_prob: self.min_prob,
            branch_prob: self.branch_prob,
        }
    }

    pub fn beam_params(&self) -> (r: BeamParams)
        ensures
            r == self.spec_beam_params(),
    {
        BeamParams {
            max_depth: self.max_depth,
            beam_width: self.beam_width,
            min_prob: self.min_prob,
            branch_prob: self.branch_prob,
        }
    }

    /// Accepts the configuration when both probabilities lie in `[0, 1]`.
    pub fn validate(&self) -> (r: Result<(), ConfigError>)
        ensures
            r is Ok <==> self.spec_beam_params().valid(),
    {
        self.beam_params().check()
    }
}

/// What one call of `expand_operation` reports.
#[derive(Debug)]
pub struct ManufacturingExpansionOutcome {
    pub created: Vec<ScenarioMeta>,
    pub retired: Vec<ScenarioMeta>,
    pub overlays_added: Vec<ManufacturingScenarioDelta>,
    pub overlays_removed: Vec<ManufacturingScenarioDelta>,
}

/// The manufacturing beam: one step per operation start, overlays keyed by
/// machine.
pub struct ManufacturingScenarioManager<P: MachineBacklogPredictor> {
    cfg: ManufacturingBeamConfig,
    predictor: P,
    beam: Beam,
}

impl<P: MachineBacklogPredictor> ManufacturingScenarioManager<P> {
    pub closed spec fn spec_beam(&self) -> Beam {
        self.beam
    }

    pub closed spec fn spec_config(&self) -> ManufacturingBeamConfig {
        self.cfg
    }

    pub closed spec fn spec_predictor(&self) -> P {
        self.predictor
    }

    pub open spec fn wf(&self) -> bool {
        &&& self.spec_beam().wf()
        &&& self.spec_beam().spec_params() == self.spec_config().spec_beam_params()
    }

    /// A manager with no active scenario; ids start at 1.
    pub fn new(cfg: ManufacturingBeamConfig, predictor: P) -> (r: Self)
        requires
            cfg.spec_beam_params().valid(),
        ensures
            r.wf(),
            r.spec_config() == cfg,
            r.spec_predictor() == predictor,
            r.spec_beam().spec_next_id() == 1,
            r.spec_beam().spec_active().len() == 0,
            r.spec_beam().spec_overlays().is_empty(),
    {
        let params = cfg.beam_params();
        ManufacturingScenarioManager { cfg, predictor, beam: Beam::new(params) }
    }

    /// One beam step for `op`: the overlays go to the operation's machine
    /// with the adjusted predicted backlog.
    pub fn expand_operation(&mut self, op: &OperationStart) -> (r: ManufacturingExpansionOutcome)
        requires
            old(self).wf(),
        ensures
            final(self).wf(),
            final(self).spec_config() == old(self).spec_config(),
            final(self).spec_predictor() == old(self).spec_predictor(),
            expanded(
                old(self).spec_beam(),
                final(self).spec_beam(),
                r.created@,
                r.retired@,
                manufacturing_deltas_as_overlays(r.overlays_added@),
                manufacturing_deltas_as_overlays(r.overlays_removed@),
                op.machine_id,
                adjusted_delta(
                    old(self).spec_predictor().spec_predict_backlog(*op),
                    old(self).spec_config().delta_multiplier,
                    old(self).spec_config().min_delta_units,
                ),
            ),
    {
        let delta = self.predict_delta(op);
        let step = self.beam.expand(op.machine_id, delta);
        let overlays_added = manufacturing_deltas_from(&step.overlays_added);
        let overlays_removed = manufacturing_deltas_from(&step.overlays_removed);
        ManufacturingExpansionOutcome { created: step.created, retired: step.retired, overlays_added, overlays_removed }
    }

    /// The `(id, weight)` pairs of the active set, best first.
    pub fn active_weights(&self) -> (r: Vec<(ScenarioId, Prob)>)
        ensures
            r@.len() == self.spec_beam().spec_active().len(),
            forall|i: int|
                0 <= i < r@.len() ==> #[trigger] r@[i] == (
                    self.spec_beam().spec_active()[i].id,
                    self.spec_beam().spec_active()[i].weight,
                ),
    {
        weights_of(self.beam.active())
    }


    pub fn active_len(&self) -> (r: usize)
        ensures
            r == self.spec_beam().spec_active().len(),
    {
        self.beam.active_len()
    }

    fn predict_delta(&self, op: &OperationStart) -> (r: i64)
        ensures
            r == adjusted_delta(
                self.predictor.spec_predict_backlog(*op),
                self.cfg.delta_multiplier,
                self.cfg.min_delta_units,
            ),
    {
        let raw = self.predictor.predict_backlog(op);
        adjust_delta(raw, self.cfg.delta_multiplier, self.cfg.min_delta_units)
    }
}

} // verus!
