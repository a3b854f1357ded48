use branching_futures::beam::{Beam, BeamParams, BeamStep, ConfigError, Overlay, ScenarioMeta};
use branching_futures::prob::{Prob, FIXED_ONE};

fn p(x: u64) -> Prob {
    Prob(x * (FIXED_ONE / 1000))
}

fn params(max_depth: u32, beam_width: usize, min_prob: Prob, branch_prob: Prob) -> BeamParams {
    BeamParams { max_depth, beam_width, min_prob, branch_prob }
}

fn weights(b: &Beam) -> Vec<u64> {
    b.active().iter().map(|m| m.weight.0).collect()
}

fn ids(v: &[ScenarioMeta]) -> Vec<u64> {
    v.iter().map(|m| m.id).collect()
}

#[test]
fn root_only_growth() {
    // beam_width 4, min_prob 0.1, branch_prob 0.5, max_depth 3, three
    // identical events. The root branches on every event, so each epoch adds
    // a fresh 0.5 child beside the children of the survivors.
    let mut b = Beam::new(params(3, 4, p(100), p(500)));
    b.expand(7, 10);
    assert_eq!(b.active_len(), 1);
    assert_eq!(weights(&b), vec![p(500).0]);
    b.expand(7, 10);
    assert_eq!(b.active_len(), 3);
    assert_eq!(weights(&b), vec![p(500).0, p(500).0, p(250).0]);
    b.expand(7, 10);
    assert_eq!(b.active_len(), 4);
    assert_eq!(weights(&b), vec![p(500).0, p(500).0, p(500).0, p(250).0]);
    assert_eq!(ids(b.active()), vec![1, 2, 4, 3]);
}

#[test]
fn first_child_has_root_parent_and_overlay() {
    let mut b = Beam::new(params(3, 4, p(100), p(500)));
    let step = b.expand(42, -5);
    assert_eq!(step.created.len(), 1);
    let c = step.created[0];
    assert_eq!(c.id, 1);
    assert_eq!(c.parent, None);
    assert_eq!(c.depth, 1);
    assert_eq!(c.weight, p(500));
    assert_eq!(step.overlays_added, vec![Overlay { scenario_id: 1, key: 42, delta: -5 }]);
    assert!(step.retired.is_empty());
    assert!(step.overlays_removed.is_empty());
    assert_eq!(b.overlay(1), Some(Overlay { scenario_id: 1, key: 42, delta: -5 }));
    assert_eq!(b.next_id(), 2);
    let step = b.expand(43, 6);
    // the survivor's child names it as parent
    let grandchild = step.created.iter().find(|m| m.depth == 2).unwrap();
    assert_eq!(grandchild.parent, Some(1));
    assert_eq!(grandchild.weight, p(250));
}

#[test]
fn pruning_under_min_prob() {
    // min_prob 0.3: a 0.25 child is never admitted.
    let mut b = Beam::new(params(3, 4, p(300), p(500)));
    b.expand(1, 1);
    assert_eq!(weights(&b), vec![p(500).0]);
    let step = b.expand(1, 1);
    assert!(step.created.iter().all(|m| m.weight.0 >= p(300).0));
    assert_eq!(weights(&b), vec![p(500).0, p(500).0]);
    b.expand(1, 1);
    assert_eq!(weights(&b), vec![p(500).0, p(500).0, p(500).0]);
}

#[test]
fn beam_eviction() {
    let mut b = Beam::new(params(5, 2, p(10), p(900)));
    let mut live: Vec<u64> = Vec::new();
    for _ in 0..6 {
        let before: Vec<ScenarioMeta> = b.active().clone();
        let step: BeamStep = b.expand(9, 100);
        assert!(b.active_len() <= 2);
        // the two best candidates stay
        let mut cands: Vec<ScenarioMeta> = before
            .iter()
            .copied()
            .filter(|m| m.weight.0 >= p(10).0 && m.depth < 5)
            .collect();
        cands.extend(step.created.iter().copied());
        cands.sort_by(|a, c| c.weight.0.cmp(&a.weight.0).then(a.id.cmp(&c.id)));
        cands.truncate(2);
        assert_eq!(ids(b.active()), ids(&cands));
        // every retired scenario gives back its overlay
        assert_eq!(step.retired.len(), step.overlays_removed.len());
        for (m, o) in step.retired.iter().zip(step.overlays_removed.iter()) {
            assert_eq!(m.id, o.scenario_id);
            assert_eq!(b.overlay(m.id), None);
        }
        for m in b.active() {
            assert_eq!(b.overlay(m.id).map(|o| o.scenario_id), Some(m.id));
        }
        live = ids(b.active());
    }
    assert_eq!(live.len(), 2);
}

#[test]
fn lower_id_first_on_equal_weight() {
    let mut b = Beam::new(params(3, 10, p(100), p(500)));
    b.expand(1, 1);
    b.expand(1, 1);
    let step = b.expand(1, 1);
    let quarter: Vec<u64> = step.created.iter().filter(|m| m.weight == p(250)).map(|m| m.id).collect();
    assert_eq!(quarter, vec![5, 6]);
    let order = ids(b.active());
    let i5 = order.iter().position(|&i| i == 5).unwrap();
    let i6 = order.iter().position(|&i| i == 6).unwrap();
    assert!(i5 < i6);
    assert_eq!(order, vec![1, 2, 4, 3, 5, 6, 7]);
}

#[test]
fn zero_branch_prob_creates_nothing() {
    let mut b = Beam::new(params(5, 8, p(100), p(0)));
    for _ in 0..3 {
        let step = b.expand(1, 1);
        assert!(step.created.is_empty());
        assert!(step.overlays_added.is_empty());
    }
    assert_eq!(b.active_len(), 0);
}

#[test]
fn zero_branch_prob_creates_nothing_without_floor() {
    let mut b = Beam::new(params(5, 8, Prob(0), p(0)));
    for _ in 0..3 {
        let step = b.expand(1, 1);
        assert!(step.created.is_empty());
    }
    assert_eq!(b.active_len(), 0);
    assert_eq!(b.next_id(), 1);
}

#[test]
fn zero_width_retires_every_child() {
    let mut b = Beam::new(params(5, 0, p(100), p(500)));
    for _ in 0..3 {
        let step = b.expand(1, 1);
        assert_eq!(step.created.len(), 1);
        assert_eq!(ids(&step.retired), ids(&step.created));
        assert_eq!(step.overlays_removed, step.overlays_added);
        assert_eq!(b.active_len(), 0);
    }
    assert_eq!(b.next_id(), 4);
}

#[test]
fn zero_depth_creates_nothing() {
    let mut b = Beam::new(params(0, 8, p(100), p(500)));
    let step = b.expand(1, 1);
    assert!(step.created.is_empty());
    assert_eq!(b.active_len(), 0);
    assert_eq!(b.next_id(), 1);
}

#[test]
fn ids_strictly_increase() {
    let mut b = Beam::new(params(4, 6, p(50), p(600)));
    let mut last = 0u64;
    for _ in 0..8 {
        let step = b.expand(3, 3);
        for m in &step.created {
            assert!(m.id > last);
            last = m.id;
        }
    }
}

#[test]
fn created_at_most_survivors_plus_one() {
    let mut b = Beam::new(params(4, 6, p(50), p(600)));
    for _ in 0..8 {
        let survivors = b
            .active()
            .iter()
            .filter(|m| m.weight.0 >= p(50).0 && m.depth < 4)
            .count();
        let step = b.expand(3, 3);
        assert!(step.created.len() <= survivors + 1);
    }
}

#[test]
fn depth_and_weight_bounds_hold() {
    let mut b = Beam::new(params(2, 5, p(200), p(700)));
    for _ in 0..6 {
        b.expand(3, 3);
        for m in b.active() {
            assert!(m.depth >= 1 && m.depth <= 2);
            assert!(m.weight.0 >= p(200).0);
        }
        assert!(b.active_len() <= 5);
    }
}

#[test]
fn params_check_rejects_out_of_range() {
    assert_eq!(params(1, 1, p(100), p(500)).check(), Ok(()));
    assert_eq!(params(1, 1, Prob(FIXED_ONE + 1), p(500)).check(), Err(ConfigError::MinProbOutOfRange));
    assert_eq!(params(1, 1, p(100), Prob(FIXED_ONE + 1)).check(), Err(ConfigError::BranchProbOutOfRange));
    assert_eq!(params(1, 1, Prob(FIXED_ONE), Prob(FIXED_ONE)).check(), Ok(()));
}
