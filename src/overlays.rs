//! The overlay table: overlay diffs reduced to one net entry per scenario.

use crate::beam::Overlay;
use crate::prob::{fits_i64, Prob};
use crate::views::{is_top_k, scenario_top_k, with_overlay, Aggregates, ScenarioView};
use vstd::prelude::*;

verus! {

/// How often one overlay of a scenario has been asserted, net of
/// retractions.
#[derive(Debug, Clone, Copy, PartialEq, Eq, Structural)]
pub struct OverlayCount {
    pub key: u64,
    pub delta: i64,
    pub count: i64,
}

/// The overlay table after the diff `diff` of `ov`, when it is accepted: the
/// count of `ov` moves by `diff`, and a count of zero leaves the table.
pub open spec fn overlay_applied(m: Map<u64, OverlayCount>, ov: Overlay, diff: i64) -> Map<
    u64,
    OverlayCount,
> {
    let c = if m.contains_key(ov.scenario_id) {
        m[ov.scenario_id].count + diff
    } else {
        diff as int
    };
    if c == 0 {
        m.remove(ov.scenario_id)
    } else {
        m.insert(ov.scenario_id, OverlayCount { key: ov.key, delta: ov.delta, count: c as i64 })
    }
}

/// A diff of `ov` is accepted when the scenario has no overlay or this very
/// one (a scenario has one overlay at a time), and the count stays in range.
pub open spec fn overlay_accepts(m: Map<u64, OverlayCount>, ov: Overlay, diff: i64) -> bool {
    if m.contains_key(ov.scenario_id) {
        let row = m[ov.scenario_id];
        row.key == ov.key && row.delta == ov.delta && fits_i64(row.count + diff)
    } else {
        true
    }
}

/// The overlays asserted per scenario, from a stream of overlay diffs.
pub struct OverlayTable {
    rows: Vec<(u64, OverlayCount)>,
    table: Ghost<Map<u64, OverlayCount>>,
}

impl OverlayTable {
    pub closed spec fn spec_table(&self) -> Map<u64, OverlayCount> {
        self.table@
    }

    pub closed spec fn wf(&self) -> bool {
        &&& forall|i: int, j: int|
            0 <= i < self.rows@.len() && 0 <= j < self.rows@.len() && i != j ==> (
            #[trigger] self.rows@[i]).0 != (#[trigger] self.rows@[j]).0
        &&& forall|i: int|
            0 <= i < self.rows@.len() ==> self.table@.contains_key((#[trigger] self.rows@[i]).0)
                && self.table@[self.rows@[i].0] == self.rows@[i].1
        &&& forall|id: u64| #[trigger] self.table@.contains_key(id) ==> self.rows@.contains((id, self.table@[id]))
        &&& forall|id: u64| #[trigger] self.table@.contains_key(id) ==> self.table@[id].count != 0
    }

    /// No scenario of the table holds a count of zero.
    pub proof fn lemma_no_zero_counts(&self)
        requires
            self.wf(),
        ensures
            forall|id: u64| #[trigger] self.spec_table().contains_key(id) ==> self.spec_table()[id].count != 0,
    {
    }

    pub fn new() -> (r: OverlayTable)
        ensures
            r.wf(),
            r.spec_table() == Map::<u64, OverlayCount>::empty(),
    {
        OverlayTable { rows: Vec::new(), table: Ghost(Map::empty()) }
    }

    fn find(&self, id: u64) -> (r: Option<usize>)
        requires
            self.wf(),
        ensures
            match r {
                Some(i) => i < self.rows@.len() && self.rows@[i as int].0 == id,
                None => !self.table@.contains_key(id),
            },
    {
        let mut i: usize = 0;
        while i < self.rows.len()
            invariant
                i <= self.rows@.len(),
                forall|j: int| 0 <= j < i ==> (#[trigger] self.rows@[j]).0 != id,
            decreases self.rows@.len() - i,
        {
            if self.rows[i].0 == id {
                return Some(i);
            }
            i = i + 1;
        }
        proof {
            if self.table@.contains_key(id) {
                assert(self.rows@.contains((id, self.table@[id])));
                let j = choose|j: int| 0 <= j < self.rows@.len() && self.rows@[j] == (id, self.table@[id]);
                assert(self.rows@[j].0 == id);
            }
        }
        None
    }

    /// The overlay of scenario `id` with its net count, if it has one.
    pub fn get(&self, id: u64) -> (r: Option<OverlayCount>)
        requires
            self.wf(),
        ensures
            r == (if self.spec_table().contains_key(id) {
                Some(self.spec_table()[id])
            } else {
                None
            }),
    {
        match self.find(id) {
            Some(i) => Some(self.rows[i].1),
            None => None,
        }
    }

    /// Applies the diff `diff` of overlay `ov`. Refused, with nothing
    /// changed, when the scenario holds another overlay or the count would
    /// leave the range of `i64`.
    pub fn apply(&mut self, ov: Overlay, diff: i64) -> (ok: bool)
        requires
            old(self).wf(),
        ensures
            final(self).wf(),
            ok == overlay_accepts(old(self).spec_table(), ov, diff),
            ok ==> final(self).spec_table() == overlay_applied(old(self).spec_table(), ov, diff),
            !ok ==> final(self).spec_table() == old(self).spec_table(),
    {
        let id = ov.scenario_id;
        let found = self.find(id);
        let ghost m0 = self.table@;
        let ghost r0 = self.rows@;
        match found {
            Some(i) => {
                let row = self.rows[i].1;
                proof {
                    assert(m0[id] == row);
                }
                if row.key != ov.key || row.delta != ov.delta {
                    return false;
                }
                let c: i128 = (row.count as i128) + (diff as i128);
                if c < i64::MIN as i128 || c > i64::MAX as i128 {
                    return false;
                }
                if c == 0 {
                    self.rows.remove(i);
                    self.table = Ghost(m0.remove(id));
                    proof {
                        let e = self.rows@;
                        assert forall|a: int, b: int|
                            0 <= a < e.len() && 0 <= b < e.len() && a != b implies (#[trigger] e[a]).0
                            != (#[trigger] e[b]).0 by {
                            let a0 = if a < i { a } else { a + 1 };
                            let b0 = if b < i { b } else { b + 1 };
                            assert(e[a] == r0[a0] && e[b] == r0[b0]);
                        }
                        assert forall|j: int| 0 <= j < e.len() implies self.table@.contains_key(
                            (#[trigger] e[j]).0,
                        ) && self.table@[e[j].0] == e[j].1 by {
                            let j0 = if j < i { j } else { j + 1 };
                            assert(e[j] == r0[j0]);
                            assert(r0[j0].0 != r0[i as int].0);
                        }
                        assert forall|q: u64| #[trigger] self.table@.contains_key(q) implies e.contains(
                            (q, self.table@[q]),
                        ) by {
                            assert(r0.contains((q, m0[q])));
                            let j0 = choose|j0: int| 0 <= j0 < r0.len() && r0[j0] == (q, m0[q]);
                            if j0 < i {
                                assert(e[j0] == r0[j0]);
                            } else {
                                assert(j0 != i);
                                assert(e[j0 - 1] == r0[j0]);
                            }
                        }
                    }
                } else {
                    let nrow = OverlayCount { key: ov.key, delta: ov.delta, count: c as i64 };
                    self.rows[i] = (id, nrow);
                    self.table = Ghost(m0.insert(id, nrow));
                    proof {
                        let e = self.rows@;
                        assert forall|a: int, b: int|
                            0 <= a < e.len() && 0 <= b < e.len() && a != b implies (#[trigger] e[a]).0
                            != (#[trigger] e[b]).0 by {
                            assert(e[a].0 == r0[a].0 && e[b].0 == r0[b].0);
                        }
                        assert forall|j: int| 0 <= j < e.len() implies self.table@.contains_key(
                            (#[trigger] e[j]).0,
                        ) && self.table@[e[j].0] == e[j].1 by {
                            if j != i {
                                assert(e[j] == r0[j]);
                                assert(r0[j].0 != r0[i as int].0);
                            }
                        }
                        assert forall|q: u64| #[trigger] self.table@.contains_key(q) implies e.contains(
                            (q, self.table@[q]),
                        ) by {
                            if q == id {
                                assert(e[i as int] == (id, nrow));
                            } else {
                                assert(r0.contains((q, m0[q])));
                                let j0 = choose|j0: int| 0 <= j0 < r0.len() && r0[j0] == (q, m0[q]);
                                assert(e[j0] == r0[j0]);
                            }
                        }
                    }
                }
            },
            None => {
                if diff != 0 {
                    let nrow = OverlayCount { key: ov.key, delta: ov.delta, count: diff };
                    self.rows.push((id, nrow));
                    self.table = Ghost(m0.insert(id, nrow));
                    proof {
                        let e = self.rows@;
                        let n = r0.len() as int;
                        assert forall|a: int, b: int|
                            0 <= a < e.len() && 0 <= b < e.len() && a != b implies (#[trigger] e[a]).0
                            != (#[trigger] e[b]).0 by {
                            if a < n && b < n {
                                assert(e[a] == r0[a] && e[b] == r0[b]);
                            } else if a < n {
                                assert(e[a] == r0[a]);
                            } else {
                                assert(e[b] == r0[b]);
                            }
                        }
                        assert forall|j: int| 0 <= j < e.len() implies self.table@.contains_key(
                            (#[trigger] e[j]).0,
                        ) && self.table@[e[j].0] == e[j].1 by {
                            if j < n {
                                assert(e[j] == r0[j]);
                            }
                        }
                        assert forall|q: u64| #[trigger] self.table@.contains_key(q) implies e.contains(
                            (q, self.table@[q]),
                        ) by {
                            if q == id {
                                assert(e[n] == (id, nrow));
                            } else {
                                assert(r0.contains((q, m0[q])));
                                let j0 = choose|j0: int| 0 <= j0 < r0.len() && r0[j0] == (q, m0[q]);
                                assert(e[j0] == r0[j0]);
                            }
                        }
                    }
                } else {
                    assert(m0.remove(id) =~= m0);
                }
            },
        }
        true
    }
}

/// An overlay diff followed by its exact retraction leaves the overlay
/// table, and so every scenario's totals and view computed from it, as it
/// was.
pub proof fn lemma_overlay_retraction_cancels(m: Map<u64, OverlayCount>, ov: Overlay, diff: i64)
    requires
        forall|id: u64| #[trigger] m.contains_key(id) ==> m[id].count != 0,
        diff > i64::MIN,
        overlay_accepts(m, ov, diff),
    ensures
        overlay_accepts(overlay_applied(m, ov, diff), ov, (-diff) as i64),
        overlay_applied(overlay_applied(m, ov, diff), ov, (-diff) as i64) == m,
        forall|base: Map<u64, i64>, id: u64|
            #[trigger] table_totals(base, overlay_applied(overlay_applied(m, ov, diff), ov, (-diff) as i64), id)
                == table_totals(base, m, id),
{
    let m1 = overlay_applied(m, ov, diff);
    let m2 = overlay_applied(m1, ov, (-diff) as i64);
    if m.contains_key(ov.scenario_id) {
        let row = m[ov.scenario_id];
        assert(row == OverlayCount { key: ov.key, delta: ov.delta, count: row.count });
        assert(m2 =~= m);
    } else {
        assert(m2 =~= m);
    }
}

/// The totals inside scenario `id`: the base totals with the scenario's
/// overlay applied while its net count is positive, else the base totals.
pub open spec fn table_totals(base: Map<u64, i64>, t: Map<u64, OverlayCount>, id: u64) -> Map<u64, i64> {
    if t.contains_key(id) && t[id].count > 0 {
        with_overlay(base, t[id].key, t[id].delta)
    } else {
        base
    }
}

/// The top-K of each scenario of `scenarios` (id and weight), in order, with
/// the overlays that `table` holds.
pub fn table_views(base: &Aggregates, table: &OverlayTable, scenarios: &Vec<(u64, Prob)>, k: usize) -> (r:
    Vec<ScenarioView>)
    requires
        base.wf(),
        table.wf(),
    ensures
        r@.len() == scenarios@.len(),
        forall|i: int|
            0 <= i < r@.len() ==> {
                &&& (#[trigger] r@[i]).scenario_id == scenarios@[i].0
                &&& r@[i].weight == scenarios@[i].1
                &&& is_top_k(
                    r@[i].top@,
                    table_totals(base.spec_totals(), table.spec_table(), scenarios@[i].0),
                    k as nat,
                )
            },
{
    let mut out: Vec<ScenarioView> = Vec::new();
    let mut i: usize = 0;
    while i < scenarios.len()
        invariant
            i <= scenarios@.len(),
            base.wf(),
            table.wf(),
            out@.len() == i,
            forall|j: int|
                0 <= j < i ==> {
                    &&& (#[trigger] out@[j]).scenario_id == scenarios@[j].0
                    &&& out@[j].weight == scenarios@[j].1
                    &&& is_top_k(
                        out@[j].top@,
                        table_totals(base.spec_totals(), table.spec_table(), scenarios@[j].0),
                        k as nat,
                    )
                },
        decreases scenarios@.len() - i,
    {
        let (id, weight) = scenarios[i];
        let top = match table.get(id) {
            Some(row) => {
                if row.count > 0 {
                    scenario_top_k(base, row.key, row.delta, k)
                } else {
                    base.top_k(k)
                }
            },
            None => base.top_k(k),
        };
        out.push(ScenarioView { scenario_id: id, weight, top });
        i = i + 1;
    }
    out
}

} // verus!
