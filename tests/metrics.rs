use branching_futures::metrics::{EpochTimer, MetricsRegistry, MetricsSnapshot};

#[test]
fn counters_accumulate() {
    let m = MetricsRegistry::new();
    m.inc_base_events(3);
    m.inc_base_events(2);
    m.inc_predicted_events(4);
    m.inc_scenario_alerts(1);
    m.inc_scenario_created(6);
    m.inc_scenario_retired(5);
    m.record_active_peak(7);
    m.record_active_peak(2);
    assert_eq!(
        m.snapshot(),
        MetricsSnapshot {
            base_events: 5,
            predicted_events: 4,
            scenario_alerts: 1,
            scenario_created: 6,
            scenario_retired: 5,
            scenario_active_peak: 7,
        }
    );
}

#[test]
fn counters_wrap() {
    let m = MetricsRegistry::default();
    m.inc_scenario_created(u64::MAX);
    m.inc_scenario_created(2);
    assert_eq!(m.snapshot().scenario_created, 1);
    assert_eq!(m.snapshot().base_events, 0);
}

#[test]
fn timer_runs() {
    let t = EpochTimer::start();
    let a = t.elapsed();
    let b = t.elapsed();
    assert!(b >= a);
}

#[test]
fn clones_share_counters() {
    let a = MetricsRegistry::new();
    let b = a.clone();
    b.inc_scenario_alerts(1);
    a.inc_scenario_alerts(2);
    b.record_active_peak(9);
    assert_eq!(a.snapshot().scenario_alerts, 3);
    assert_eq!(b.snapshot().scenario_alerts, 3);
    assert_eq!(a.snapshot().scenario_active_peak, 9);
}
