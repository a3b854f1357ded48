use branching_futures::event::{EventEnvelope, EventMeta};
use branching_futures::manufacturing::OperationStart;
use branching_futures::predictors::{
    MachineBacklogPredictor, NoopPredictor, Predictor, QueueGrowthPredictor, SpendDeltaPredictor,
    SpendGrowthPredictor,
};
use branching_futures::prob::{saturate_i64, scale_i64, scale_u64, Prob, Ratio, FIXED_ONE};
use branching_futures::retail::{OrderLine, OrderPlaced};

fn order(lines: Vec<OrderLine>) -> OrderPlaced {
    OrderPlaced { order_id: 1, customer_id: 7, lines, ts_ms: 0 }
}

fn line(price_cents: i64, qty: u32) -> OrderLine {
    OrderLine { sku_id: 1, qty, price_cents }
}

#[test]
fn order_total_sums_lines() {
    assert_eq!(order(vec![line(250, 4), line(99, 1)]).total_cents(), 1099);
    assert_eq!(order(Vec::new()).total_cents(), 0);
    assert_eq!(order(vec![line(-100, 3)]).total_cents(), -300);
}

#[test]
fn order_total_saturates() {
    assert_eq!(order(vec![line(i64::MAX, 2)]).total_cents(), i64::MAX);
    assert_eq!(order(vec![line(i64::MAX, 1), line(5, 1)]).total_cents(), i64::MAX);
    assert_eq!(order(vec![line(i64::MIN, 1), line(-5, 1), line(10, 1)]).total_cents(), i64::MIN + 10);
}

#[test]
fn scaling_rounds_half_away_from_zero() {
    let half = Ratio((FIXED_ONE / 2) as i64);
    assert_eq!(scale_i64(5, half), 3);
    assert_eq!(scale_i64(-5, half), -3);
    assert_eq!(scale_i64(4, half), 2);
    assert_eq!(scale_i64(10_000, Ratio(300_000_000)), 3_000);
    assert_eq!(scale_i64(7, Ratio(-(FIXED_ONE as i64))), -7);
    assert_eq!(scale_u64(2_500, Ratio(1_000_000)), 3);
    // the scaled value is exact, even beyond the range of i64
    assert_eq!(scale_i64(i64::MAX, Ratio(2 * FIXED_ONE as i64)), 2 * i64::MAX as i128);
    assert_eq!(scale_i64(i64::MIN, Ratio(2 * FIXED_ONE as i64)), 2 * i64::MIN as i128);
    assert_eq!(saturate_i64(i128::MAX), i64::MAX);
}

#[test]
fn spend_growth_prediction() {
    let p = SpendGrowthPredictor::default();
    assert_eq!(p.uplift_ratio, Ratio(300_000_000));
    assert_eq!(p.min_delta_cents, 3_000);
    assert_eq!(p.predict_delta(&order(vec![line(20_000, 1)])), 6_000);
    assert_eq!(p.predict_delta(&order(vec![line(1_000, 1)])), 3_000);
    let q = SpendGrowthPredictor { uplift_ratio: Ratio(500_000_000), min_delta_cents: 0 };
    // the total is raised to at least one cent first
    assert_eq!(q.predict_delta(&order(Vec::new())), 1);
    assert_eq!(q.predict_delta(&order(vec![line(7, 1)])), 4);
    // an uplift beyond the range of i64 falls back to the floor
    let r = SpendGrowthPredictor { uplift_ratio: Ratio(2 * FIXED_ONE as i64), min_delta_cents: 3_000 };
    assert_eq!(r.predict_delta(&order(vec![line(i64::MAX, 1)])), 3_000);
    assert_eq!(r.predict_delta(&order(vec![line(50, 1)])), 3_000);
    assert_eq!(r.predict_delta(&order(vec![line(5_000, 1)])), 10_000);
}

#[test]
fn queue_growth_prediction() {
    let p = QueueGrowthPredictor::default();
    assert_eq!((p.base_units, p.duration_multiplier, p.min_delta_units), (1, Ratio(1_000_000), 2));
    let op = |ms: u64| OperationStart { job_id: 1, operation_id: 2, machine_id: 3, ts_ms: 0, expected_duration_ms: ms };
    assert_eq!(p.predict_backlog(&op(2_500)), 4);
    assert_eq!(p.predict_backlog(&op(0)), 2);
    assert_eq!(p.predict_backlog(&op(10_000)), 11);
    let big = QueueGrowthPredictor { base_units: i64::MAX, duration_multiplier: Ratio(FIXED_ONE as i64), min_delta_units: 0 };
    // an estimate beyond the range of i64 falls back to the floor
    assert_eq!(big.predict_backlog(&op(10)), 0);
    let huge = QueueGrowthPredictor { base_units: 1, duration_multiplier: Ratio(i64::MAX), min_delta_units: 5 };
    assert_eq!(huge.predict_backlog(&op(u64::MAX)), 5);
}

#[test]
fn noop_predictor_repeats_context() {
    let ctx = EventEnvelope {
        meta: EventMeta {
            domain: "retail".to_string(),
            kind: "OrderPlaced".to_string(),
            epoch: 3,
            source: "test".to_string(),
            key: None,
        },
        payload: 42u64,
    };
    let out = NoopPredictor.predict(9, 2, &ctx).unwrap();
    assert_eq!(out.len(), 1);
    assert_eq!(out[0].parent_scenario, 9);
    assert_eq!(out[0].child_scenario, 10);
    assert_eq!(out[0].depth, 2);
    assert_eq!(out[0].prob, Prob(FIXED_ONE));
    assert_eq!(out[0].event, ctx);
    let wrap = NoopPredictor.predict(u64::MAX, 1, &ctx).unwrap();
    assert_eq!(wrap[0].child_scenario, 0);
}

#[test]
fn prob_product_rounds_down() {
    assert_eq!(Prob(FIXED_ONE / 2).mul(Prob(FIXED_ONE / 2)), Prob(FIXED_ONE / 4));
    assert_eq!(Prob(900_000_000).mul(Prob(900_000_000)), Prob(810_000_000));
    assert_eq!(Prob(1).mul(Prob(1)), Prob(0));
    assert_eq!(Prob::one(), Prob(FIXED_ONE));
}
