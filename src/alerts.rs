//! Subscriptions: predicates over scenario top-K entries, and the alert
//! diffs between epochs.

use crate::diffs::missing_from;
use crate::prob::Prob;
use crate::views::ScenarioView;
use vstd::prelude::*;

verus! {

/// One alert: a top-K entry of a scenario that a rule picked out.
#[derive(Debug, Clone, Copy, PartialEq, Eq, Structural)]
pub struct Alert {
    pub scenario_id: u64,
    pub key: u64,
    pub value: i64,
    pub weight: Prob,
}

/// A subscription predicate over scenario top-K entries.
#[derive(Debug, Clone, Copy, PartialEq, Eq, Structural)]
pub enum AlertRule {
    /// `target` is in the scenario's top-K and the scenario's weight is at
    /// least `min_weight`.
    TargetMembership { target: u64, min_weight: Prob },
    /// A top-K value reaches `min_value` in a scenario whose weight is at
    /// least `min_weight`.
    ValueThreshold { min_value: i64, min_weight: Prob },
}

impl AlertRule {
    pub open spec fn fires(self, key: u64, value: i64, weight: Prob) -> bool {
        match self {
            AlertRule::TargetMembership { target, min_weight } => key == target && weight.0
                >= min_weight.0,
            AlertRule::ValueThreshold { min_value, min_weight } => value >= min_value && weight.0
                >= min_weight.0,
        }
    }

    pub fn matches(&self, key: u64, value: i64, weight: Prob) -> (r: bool)
        ensures
            r == self.fires(key, value, weight),
    {
        match self {
            AlertRule::TargetMembership { target, min_weight } => key == *target && weight.0
                >= min_weight.0,
            AlertRule::ValueThreshold { min_value, min_weight } => value >= *min_value && weight.0
                >= min_weight.0,
        }
    }
}

/// The alerts that `rule` raises over the top-K `top` of scenario
/// `scenario_id` of weight `weight`, in the order of `top`.
pub open spec fn alerts_of(rule: AlertRule, scenario_id: u64, weight: Prob, top: Seq<(i64, u64)>) -> Seq<
    Alert,
>
    decreases top.len(),
{
    if top.len() == 0 {
        Seq::empty()
    } else {
        let before = alerts_of(rule, scenario_id, weight, top.drop_last());
        let e = top.last();
        if rule.fires(e.1, e.0, weight) {
            before.push(Alert { scenario_id, key: e.1, value: e.0, weight })
        } else {
            before
        }
    }
}

pub fn scenario_alerts(rule: &AlertRule, scenario_id: u64, weight: Prob, top: &Vec<(i64, u64)>) -> (r:
    Vec<Alert>)
    ensures
        r@ == alerts_of(*rule, scenario_id, weight, top@),
{
    let mut out: Vec<Alert> = Vec::new();
    let mut i: usize = 0;
    while i < top.len()
        invariant
            i <= top@.len(),
            out@ == alerts_of(*rule, scenario_id, weight, top@.take(i as int)),
        decreases top@.len() - i,
    {
        let (value, key) = top[i];
        if rule.matches(key, value, weight) {
            out.push(Alert { scenario_id, key, value, weight });
        }
        proof {
            let t = top@.take(i + 1);
            assert(t.drop_last() =~= top@.take(i as int));
            assert(t.last() == top@[i as int]);
        }
        i = i + 1;
    }
    assert(top@.take(i as int) =~= top@);
    out
}

fn holds(v: &Vec<Alert>, x: Alert) -> (r: bool)
    ensures
        r == v@.contains(x),
{
    let mut i: usize = 0;
    while i < v.len()
        invariant
            i <= v@.len(),
            forall|j: int| 0 <= j < i ==> v@[j] != x,
        decreases v@.len() - i,
    {
        if v[i] == x {
            return true;
        }
        i = i + 1;
    }
    false
}

fn missing(a: &Vec<Alert>, b: &Vec<Alert>) -> (r: Vec<Alert>)
    ensures
        r@ == missing_from(a@, b@),
{
    let mut out: Vec<Alert> = Vec::new();
    let mut i: usize = 0;
    while i < a.len()
        invariant
            i <= a@.len(),
            out@ == missing_from(a@.take(i as int), b@),
        decreases a@.len() - i,
    {
        if !holds(b, a[i]) {
            out.push(a[i]);
        }
        proof {
            let t = a@.take(i + 1);
            assert(t.drop_last() =~= a@.take(i as int));
            assert(t.last() == a@[i as int]);
        }
        i = i + 1;
    }
    assert(a@.take(i as int) =~= a@);
    out
}

/// The change of an alert view from one epoch to the next: the alerts that
/// appeared, then the ones that were retracted. An alert present in both
/// epochs is in neither.
pub fn alert_changes(previous: &Vec<Alert>, current: &Vec<Alert>) -> (r: (Vec<Alert>, Vec<Alert>))
    ensures
        r.0@ == missing_from(current@, previous@),
        r.1@ == missing_from(previous@, current@),
{
    (missing(current, previous), missing(previous, current))
}

/// The alerts that `rule` raises over every view of `views`, scenario by
/// scenario.
pub open spec fn alerts_over(rule: AlertRule, views: Seq<ScenarioView>) -> Seq<Alert>
    decreases views.len(),
{
    if views.len() == 0 {
        Seq::empty()
    } else {
        let v = views.last();
        alerts_over(rule, views.drop_last()) + alerts_of(rule, v.scenario_id, v.weight, v.top@)
    }
}

pub fn all_alerts(rule: &AlertRule, views: &Vec<ScenarioView>) -> (r: Vec<Alert>)
    ensures
        r@ == alerts_over(*rule, views@),
{
    let mut out: Vec<Alert> = Vec::new();
    let mut i: usize = 0;
    while i < views.len()
        invariant
            i <= views@.len(),
            out@ == alerts_over(*rule, views@.take(i as int)),
        decreases views@.len() - i,
    {
        let v = &views[i];
        let found = scenario_alerts(rule, v.scenario_id, v.weight, &v.top);
        let ghost before = out@;
        let mut j: usize = 0;
        while j < found.len()
            invariant
                j <= found@.len(),
                out@ == before + found@.take(j as int),
            decreases found@.len() - j,
        {
            out.push(found[j]);
            j = j + 1;
            assert(out@ =~= before + found@.take(j as int));
        }
        proof {
            let t = views@.take(i + 1);
            assert(t.drop_last() =~= views@.take(i as int));
            assert(t.last() == views@[i as int]);
            assert(found@.take(j as int) =~= found@);
        }
        i = i + 1;
    }
    assert(views@.take(i as int) =~= views@);
    out
}

} // verus!
