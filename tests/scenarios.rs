use branching_futures::beam::ConfigError;
use branching_futures::manufacturing::OperationStart;
use branching_futures::predictors::{QueueGrowthPredictor, SpendGrowthPredictor};
use branching_futures::prob::{Prob, Ratio, FIXED_ONE};
use branching_futures::retail::{OrderLine, OrderPlaced};
use branching_futures::scenarios::manufacturing::{
    ManufacturingBeamConfig, ManufacturingScenarioDelta, ManufacturingScenarioManager,
};
use branching_futures::scenarios::retail::{RetailBeamConfig, RetailScenarioDelta, RetailScenarioManager};
use branching_futures::scenarios::{adjust_delta, BeamConfig, ScenarioDelta, ScenarioManager};

fn order(customer_id: u64, cents: i64) -> OrderPlaced {
    OrderPlaced { order_id: 1, customer_id, lines: vec![OrderLine { sku_id: 1, qty: 1, price_cents: cents }], ts_ms: 0 }
}

#[test]
fn delta_adjustment() {
    // scaled, rounded, then raised to the floor
    assert_eq!(adjust_delta(10_000, Ratio(300_000_000), 0), 3_000);
    assert_eq!(adjust_delta(10_000, Ratio(300_000_000), 5_000), 5_000);
    assert_eq!(adjust_delta(-9, Ratio(FIXED_ONE as i64), -100), -9);
    assert_eq!(adjust_delta(3, Ratio(500_000_000), 0), 2);
    // a scaled delta beyond the range of i64 falls back to the floor
    assert_eq!(adjust_delta(i64::MAX, Ratio(2 * FIXED_ONE as i64), 3_000), 3_000);
    assert_eq!(adjust_delta(i64::MIN, Ratio(2 * FIXED_ONE as i64), -7), -7);
    assert_eq!(adjust_delta(i64::MAX, Ratio(FIXED_ONE as i64), 3_000), i64::MAX);
}

#[test]
fn default_configs() {
    let c = BeamConfig::default();
    assert_eq!((c.max_depth, c.beam_width, c.min_delta_cents), (5, 32, 3_000));
    assert_eq!((c.min_prob, c.branch_prob, c.delta_multiplier), (Prob(100_000_000), Prob(500_000_000), Ratio(300_000_000)));
    let r = RetailBeamConfig::default();
    assert_eq!((r.max_depth, r.beam_width, r.min_delta_cents), (5, 32, 3_000));
    let m = ManufacturingBeamConfig::default();
    assert_eq!((m.max_depth, m.beam_width, m.min_delta_units), (4, 16, 2));
    assert_eq!((m.branch_prob, m.delta_multiplier), (Prob(450_000_000), Ratio(500_000_000)));
    assert_eq!(c.validate(), Ok(()));
    let bad = BeamConfig { min_prob: Prob(FIXED_ONE + 1), ..c };
    assert_eq!(bad.validate(), Err(ConfigError::MinProbOutOfRange));
    let bad = ManufacturingBeamConfig { branch_prob: Prob(2 * FIXED_ONE), ..m };
    assert_eq!(bad.validate(), Err(ConfigError::BranchProbOutOfRange));
}

#[test]
fn spend_manager_overlays_the_customer() {
    let mut mgr = ScenarioManager::new(BeamConfig::default(), SpendGrowthPredictor::default());
    // 200.00 -> uplift 60.00 -> scaled by 0.3 to 18.00 -> floor 30.00
    let out = mgr.expand_order(&order(7, 20_000));
    assert_eq!(out.created.len(), 1);
    assert_eq!(out.overlays_added, vec![ScenarioDelta { scenario_id: 1, customer_id: 7, delta_cents: 3_000 }]);
    // 10,000.00 -> uplift 3,000.00 -> scaled to 900.00
    let out = mgr.expand_order(&order(8, 1_000_000));
    assert_eq!(out.created.len(), 2);
    assert!(out.overlays_added.iter().all(|d| d.customer_id == 8 && d.delta_cents == 90_000));
    assert_eq!(mgr.active_weights(), vec![(1, Prob(500_000_000)), (2, Prob(500_000_000)), (3, Prob(250_000_000))]);
}

#[test]
fn retail_manager_tracks_active_set() {
    let cfg = RetailBeamConfig { beam_width: 2, ..RetailBeamConfig::default() };
    let mut mgr = RetailScenarioManager::new(cfg, SpendGrowthPredictor::default());
    let out = mgr.expand_order(&order(3, 50_000));
    assert_eq!(mgr.active_len(), 1);
    assert_eq!(out.overlays_added, vec![RetailScenarioDelta { scenario_id: 1, customer_id: 3, delta_cents: 4_500 }]);
    mgr.expand_order(&order(3, 50_000));
    let out = mgr.expand_order(&order(3, 50_000));
    assert_eq!(mgr.active_len(), 2);
    assert_eq!(out.retired.len(), out.overlays_removed.len());
    for (m, d) in out.retired.iter().zip(out.overlays_removed.iter()) {
        assert_eq!(m.id, d.scenario_id);
    }
    assert_eq!(mgr.active_weights().len(), 2);
}

#[test]
fn manufacturing_manager_overlays_the_machine() {
    let mut mgr = ManufacturingScenarioManager::new(ManufacturingBeamConfig::default(), QueueGrowthPredictor::default());
    let op = OperationStart { job_id: 1, operation_id: 1, machine_id: 4, ts_ms: 0, expected_duration_ms: 20_000 };
    // 1 + 20 = 21 -> scaled by 0.5 to 10.5 -> 11
    let out = mgr.expand_operation(&op);
    assert_eq!(out.overlays_added, vec![ManufacturingScenarioDelta { scenario_id: 1, machine_id: 4, delta_wip: 11 }]);
    assert_eq!(mgr.active_len(), 1);
    assert_eq!(mgr.active_weights(), vec![(1, Prob(450_000_000))]);
    // 0.45 * 0.45 = 0.2025 stays above 0.1; the next generation would not
    let out = mgr.expand_operation(&op);
    assert_eq!(out.created.len(), 2);
    let out = mgr.expand_operation(&op);
    assert!(out.created.iter().all(|m| m.weight.0 >= 100_000_000));
    assert_eq!(out.created.len(), 3);
}
