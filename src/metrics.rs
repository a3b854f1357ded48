//! Engine counters and the epoch stopwatch.

use std::sync::atomic::{AtomicU64, Ordering};
use std::sync::Arc;
use std::time::{Duration, Instant};
use vstd::prelude::*;

verus! {

/// A point-in-time copy of every counter of a `MetricsRegistry`.
#[derive(Debug, Clone, Copy, PartialEq, Eq, Structural)]
pub struct MetricsSnapshot {
    pub base_events: u64,
    pub predicted_events: u64,
    pub scenario_alerts: u64,
    pub scenario_created: u64,
    pub scenario_retired: u64,
    pub scenario_active_peak: u64,
}

/// The counters that every clone of one registry shares.
struct MetricsInner {
    base_events: AtomicU64,
    predicted_events: AtomicU64,
    scenario_alerts: AtomicU64,
    scenario_created: AtomicU64,
    scenario_retired: AtomicU64,
    scenario_active_peak: AtomicU64,
}

/// Counters of engine activity, shared by every clone of a registry and
/// updated atomically; the counters wrap around on overflow and the active
/// peak is a running maximum. Any clone may move the counters at any time,
/// so the methods promise nothing about the values they read.
#[derive(Clone)]
pub struct MetricsRegistry {
    inner: Arc<MetricsInner>,
}

impl Default for MetricsRegistry {
    fn default() -> (r: MetricsRegistry) {
        MetricsRegistry::new()
    }
}

impl MetricsRegistry {
    /// A registry with every counter at zero.
    pub fn new() -> (r: MetricsRegistry) {
        MetricsRegistry {
            inner: Arc::new(
                MetricsInner {
                    base_events: AtomicU64::new(0),
                    predicted_events: AtomicU64::new(0),
                    scenario_alerts: AtomicU64::new(0),
                    scenario_created: AtomicU64::new(0),
                    scenario_retired: AtomicU64::new(0),
                    scenario_active_peak: AtomicU64::new(0),
                },
            ),
        }
    }

    pub fn inc_base_events(&self, delta: u64) {
        self.inner.base_events.fetch_add(delta, Ordering::Relaxed);
    }

    pub fn inc_predicted_events(&self, delta: u64) {
        self.inner.predicted_events.fetch_add(delta, Ordering::Relaxed);
    }

    pub fn inc_scenario_alerts(&self, delta: u64) {
        self.inner.scenario_alerts.fetch_add(delta, Ordering::Relaxed);
    }

    pub fn inc_scenario_created(&self, delta: u64) {
        self.inner.scenario_created.fetch_add(delta, Ordering::Relaxed);
    }

    pub fn inc_scenario_retired(&self, delta: u64) {
        self.inner.scenario_retired.fetch_add(delta, Ordering::Relaxed);
    }

    /// Raises the active-set peak gauge to `active` if that is higher.
    pub fn record_active_peak(&self, active: u64) {
        self.inner.scenario_active_peak.fetch_max(active, Ordering::Relaxed);
    }

    /// The counters as they read now.
    pub fn snapshot(&self) -> (r: MetricsSnapshot) {
        MetricsSnapshot {
            base_events: self.inner.base_events.load(Ordering::Relaxed),
            predicted_events: self.inner.predicted_events.load(Ordering::Relaxed),
            scenario_alerts: self.inner.scenario_alerts.load(Ordering::Relaxed),
            scenario_created: self.inner.scenario_created.load(Ordering::Relaxed),
            scenario_retired: self.inner.scenario_retired.load(Ordering::Relaxed),
            scenario_active_peak: self.inner.scenario_active_peak.load(Ordering::Relaxed),
        }
    }
}

/// std::time::Instant, a reading of the monotonic clock; carried through unread.
#[verifier::external_type_specification]
#[verifier::external_body]
pub struct ExInstant(Instant);

/// Relies on std::time::Instant::now: a reading of the monotonic clock.
/// Nothing is known of the value read.
#[verifier::external_body]
fn clock_now() -> Instant {
    Instant::now()
}

/// Relies on std::time::Instant::elapsed: the time since `start` on the
/// monotonic clock. Nothing is known of the value read.
#[verifier::external_body]
fn clock_elapsed(start: &Instant) -> Duration {
    start.elapsed()
}

/// Measures the wall time of one epoch.
pub struct EpochTimer {
    start: Instant,
}

impl EpochTimer {
    pub fn start() -> (r: EpochTimer) {
        EpochTimer { start: clock_now() }
    }

    pub fn elapsed(&self) -> (r: Duration) {
        clock_elapsed(&self.start)
    }
}

} // verus!
