use branching_futures::beam::{Beam, BeamParams, Overlay};
use branching_futures::prob::{Prob, FIXED_ONE};
use branching_futures::alerts::{all_alerts, alert_changes, scenario_alerts, Alert, AlertRule};
use branching_futures::diffs::top_k_changes;
use branching_futures::overlays::{table_views, OverlayCount, OverlayTable};
use branching_futures::views::{aggregate_changes, scenario_top_k, scenario_views, Aggregates, TopKConfig};

#[test]
fn base_top_k_with_retractions() {
    let mut agg = Aggregates::new();
    assert!(agg.apply(1, 100, 1));
    assert_eq!(agg.top_k(2), vec![(100, 1)]);
    assert!(agg.apply(2, 50, 1));
    assert_eq!(agg.top_k(2), vec![(100, 1), (50, 2)]);
    assert!(agg.apply(1, 100, -1));
    assert_eq!(agg.top_k(2), vec![(50, 2)]);
    assert_eq!(agg.total(1), 0);
}

#[test]
fn top_k_is_bounded_and_sorted() {
    let mut agg = Aggregates::new();
    let data: [(u64, i64); 7] = [(5, 10), (3, 40), (9, 40), (1, -7), (4, 25), (8, 10), (2, 99)];
    for (k, v) in data {
        assert!(agg.apply(k, v, 1));
    }
    let top = agg.top_k(4);
    assert_eq!(top, vec![(99, 2), (40, 3), (40, 9), (25, 4)]);
    for w in top.windows(2) {
        assert!(w[0].0 >= w[1].0);
    }
    assert_eq!(agg.top_k(0), Vec::<(i64, u64)>::new());
    assert_eq!(agg.top_k(100).len(), 7);
    assert_eq!(agg.top_k(100)[6], (-7, 1));
}

#[test]
fn equal_values_order_by_key() {
    let mut agg = Aggregates::new();
    assert!(agg.apply(30, 5, 1));
    assert!(agg.apply(10, 5, 1));
    assert!(agg.apply(20, 5, 1));
    assert_eq!(agg.top_k(3), vec![(5, 10), (5, 20), (5, 30)]);
}

#[test]
fn sums_use_multiplicities() {
    let mut agg = Aggregates::new();
    assert!(agg.apply(1, 7, 3));
    assert!(agg.apply(1, 2, -1));
    assert_eq!(agg.total(1), 19);
    assert!(agg.apply(1, 19, -1));
    assert_eq!(agg.total(1), 0);
    assert!(agg.top_k(5).is_empty());
}

#[test]
fn overflowing_contribution_is_refused() {
    let mut agg = Aggregates::new();
    assert!(agg.apply(1, i64::MAX, 1));
    assert!(!agg.apply(1, 1, 1));
    assert_eq!(agg.total(1), i64::MAX);
    assert!(agg.apply(1, i64::MAX, -1));
    assert_eq!(agg.total(1), 0);
}

#[test]
fn contribution_then_retraction_changes_nothing() {
    let mut agg = Aggregates::new();
    assert!(agg.apply(1, 100, 1));
    assert!(agg.apply(2, 50, 1));
    let before = agg.top_k(3);
    let scen_before = scenario_top_k(&agg, 2, 80, 3);
    assert!(agg.apply(3, 70, 1));
    assert!(agg.apply(3, 70, -1));
    assert_eq!(agg.top_k(3), before);
    assert_eq!(scenario_top_k(&agg, 2, 80, 3), scen_before);
}

#[test]
fn empty_epoch_changes_nothing() {
    let mut agg = Aggregates::new();
    assert_eq!(agg.apply_batch(&vec![(1, 100, 1), (2, 60, 1)]), 0);
    let before = agg.top_k(5);
    assert_eq!(agg.apply_batch(&Vec::new()), 0);
    assert_eq!(agg.top_k(5), before);
}

#[test]
fn batch_skips_what_overflows() {
    let mut agg = Aggregates::new();
    assert_eq!(agg.apply_batch(&vec![(1, i64::MAX, 1), (1, 5, 1), (2, 3, 2)]), 1);
    assert_eq!(agg.total(1), i64::MAX);
    assert_eq!(agg.total(2), 6);
}

#[test]
fn scenario_top_k_applies_overlay() {
    let mut agg = Aggregates::new();
    assert!(agg.apply(1, 500, 1));
    assert!(agg.apply(2, 400, 1));
    assert!(agg.apply(3, 300, 1));
    assert_eq!(agg.top_k(2), vec![(500, 1), (400, 2)]);
    assert_eq!(scenario_top_k(&agg, 3, 1000, 2), vec![(1300, 3), (500, 1)]);
    // a key in the base top-K moves, it is not listed twice
    assert_eq!(scenario_top_k(&agg, 1, 50, 3), vec![(550, 1), (400, 2), (300, 3)]);
    // a negative delta lets the next key in
    assert_eq!(scenario_top_k(&agg, 1, -450, 2), vec![(400, 2), (300, 3)]);
    // a key the base has not seen takes part with the delta alone
    assert_eq!(scenario_top_k(&agg, 9, 450, 2), vec![(500, 1), (450, 9)]);
    // the sum saturates
    assert_eq!(scenario_top_k(&agg, 2, i64::MAX, 1), vec![(i64::MAX, 2)]);
}

#[test]
fn scenario_alert_firing() {
    let target = 3u64;
    let mut agg = Aggregates::new();
    assert!(agg.apply(1, 500, 1));
    assert!(agg.apply(2, 400, 1));
    assert!(agg.apply(target, 300, 1));
    let half = Prob(FIXED_ONE / 2);
    let rule = AlertRule::TargetMembership { target, min_weight: Prob(300_000_000) };
    assert!(scenario_alerts(&rule, 0, Prob(FIXED_ONE), &agg.top_k(2)).is_empty());
    let top = scenario_top_k(&agg, target, 1000, 2);
    let now = scenario_alerts(&rule, 11, half, &top);
    let (raised, dropped) = alert_changes(&Vec::new(), &now);
    assert_eq!(raised, vec![Alert { scenario_id: 11, key: target, value: 1300, weight: half }]);
    assert!(dropped.is_empty());
    // the same alerts next epoch flow no diff
    let (raised, dropped) = alert_changes(&now, &now);
    assert!(raised.is_empty() && dropped.is_empty());
    // a light scenario does not alert
    assert!(scenario_alerts(&rule, 12, Prob(200_000_000), &top).is_empty());
}

#[test]
fn value_threshold_alerts() {
    let rule = AlertRule::ValueThreshold { min_value: 400, min_weight: Prob(100_000_000) };
    let top = vec![(900, 4), (400, 2), (399, 8)];
    let w = Prob(150_000_000);
    let got = scenario_alerts(&rule, 5, w, &top);
    assert_eq!(
        got,
        vec![
            Alert { scenario_id: 5, key: 4, value: 900, weight: w },
            Alert { scenario_id: 5, key: 2, value: 400, weight: w },
        ]
    );
    let (raised, dropped) = alert_changes(&got, &got[1..].to_vec());
    assert!(raised.is_empty());
    assert_eq!(dropped, vec![got[0]]);
}

#[test]
fn overlay_diff_and_retraction_cancel() {
    let mut t = OverlayTable::new();
    let ov = Overlay { scenario_id: 4, key: 7, delta: 300 };
    assert!(t.apply(ov, 1));
    assert_eq!(t.get(4), Some(OverlayCount { key: 7, delta: 300, count: 1 }));
    let other = Overlay { scenario_id: 5, key: 2, delta: -1 };
    assert!(t.apply(other, 1));
    assert!(t.apply(other, -1));
    assert_eq!(t.get(5), None);
    assert_eq!(t.get(4), Some(OverlayCount { key: 7, delta: 300, count: 1 }));
    // a second overlay for one scenario is refused
    assert!(!t.apply(Overlay { scenario_id: 4, key: 8, delta: 300 }, 1));
    assert!(t.apply(ov, -1));
    assert_eq!(t.get(4), None);
}

#[test]
fn top_k_config_default() {
    assert_eq!(TopKConfig::default().k, 10);
}

#[test]
fn alerts_across_the_beam() {
    let target = 3u64;
    let mut agg = Aggregates::new();
    assert!(agg.apply(1, 500, 1));
    assert!(agg.apply(2, 400, 1));
    assert!(agg.apply(target, 300, 1));
    let mut beam = Beam::new(BeamParams {
        max_depth: 3,
        beam_width: 4,
        min_prob: Prob(100_000_000),
        branch_prob: Prob(FIXED_ONE / 2),
    });
    beam.expand(target, 1000);
    let views = scenario_views(&agg, &beam, 2);
    assert_eq!(views.len(), 1);
    assert_eq!(views[0].scenario_id, 1);
    assert_eq!(views[0].top, vec![(1300, target), (500, 1)]);
    let rule = AlertRule::TargetMembership { target, min_weight: Prob(300_000_000) };
    let alerts = all_alerts(&rule, &views);
    assert_eq!(alerts, vec![Alert { scenario_id: 1, key: target, value: 1300, weight: Prob(FIXED_ONE / 2) }]);
    // the next event adds a second 0.5 scenario and a 0.25 one below the threshold
    beam.expand(target, 1000);
    let views = scenario_views(&agg, &beam, 2);
    assert_eq!(views.len(), 3);
    let alerts = all_alerts(&rule, &views);
    assert_eq!(alerts.len(), 2);
    assert!(alerts.iter().all(|a| a.weight == Prob(FIXED_ONE / 2) && a.value == 1300));
}

#[test]
fn base_top_k_diffs_per_epoch() {
    let mut agg = Aggregates::new();
    assert!(agg.apply(1, 100, 1));
    let e0 = agg.top_k(2);
    assert_eq!(top_k_changes(&Vec::new(), &e0), (vec![(100, 1)], Vec::new()));
    assert!(agg.apply(2, 50, 1));
    let e1 = agg.top_k(2);
    assert_eq!(e1, vec![(100, 1), (50, 2)]);
    assert_eq!(top_k_changes(&e0, &e1), (vec![(50, 2)], Vec::new()));
    assert!(agg.apply(1, 100, -1));
    let e2 = agg.top_k(2);
    assert_eq!(e2, vec![(50, 2)]);
    assert_eq!(top_k_changes(&e1, &e2), (Vec::new(), vec![(100, 1)]));
}

#[test]
fn aggregate_diffs_retract_then_insert() {
    let mut agg = Aggregates::new();
    assert!(agg.apply(1, 100, 1));
    assert!(agg.apply(2, 40, 1));
    let before = agg.snapshot();
    assert!(agg.apply(1, 50, 1));
    assert!(agg.apply(2, 40, -1));
    assert!(agg.apply(3, 9, 1));
    let (mut inserted, mut retracted) = aggregate_changes(&before, &agg);
    inserted.sort();
    retracted.sort();
    assert_eq!(inserted, vec![(9, 3), (150, 1)]);
    assert_eq!(retracted, vec![(40, 2), (100, 1)]);
    let same = agg.snapshot();
    assert_eq!(aggregate_changes(&same, &agg), (Vec::new(), Vec::new()));
}

#[test]
fn table_views_follow_overlay_diffs() {
    let mut agg = Aggregates::new();
    assert!(agg.apply(1, 500, 1));
    assert!(agg.apply(2, 400, 1));
    assert!(agg.apply(3, 300, 1));
    let mut t = OverlayTable::new();
    let half = Prob(FIXED_ONE / 2);
    let scenarios = vec![(7u64, half), (8u64, half)];
    assert!(t.apply(Overlay { scenario_id: 7, key: 3, delta: 1000 }, 1));
    let views = table_views(&agg, &t, &scenarios, 2);
    assert_eq!(views[0].top, vec![(1300, 3), (500, 1)]);
    assert_eq!(views[1].top, vec![(500, 1), (400, 2)]);
    let before: Vec<Vec<(i64, u64)>> = views.iter().map(|v| v.top.clone()).collect();
    // a diff and its retraction in one epoch change no view
    let ov = Overlay { scenario_id: 8, key: 2, delta: 700 };
    assert!(t.apply(ov, 1));
    assert!(t.apply(ov, -1));
    let after: Vec<Vec<(i64, u64)>> = table_views(&agg, &t, &scenarios, 2).iter().map(|v| v.top.clone()).collect();
    assert_eq!(before, after);
}
