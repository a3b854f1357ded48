//! The scenario registry and the beam expander.
//!
//! A `Beam` holds the active scenarios, ordered by weight descending and then
//! by id ascending, the overlay of each, and the id allocator. `expand` is
//! one step of the beam search for one base event.

use crate::event::{Depth, ScenarioId};
use crate::prob::{Prob, FIXED_ONE};
use crate::rank::{
    append_all, distinct_keys, is_ranked_split, lemma_same_key_same_item, lemma_sorted_subset_distinct,
    sorted_by_rank, split_top, Ranked,
};
use std::collections::HashMap;
use vstd::prelude::*;

verus! {

broadcast use vstd::std_specs::hash::group_hash_axioms;

/// One scenario: a hypothetical future. `parent` is `None` for a child of the
/// implicit root.
#[derive(Debug, Clone, Copy, PartialEq, Eq, Structural)]
pub struct ScenarioMeta {
    pub id: ScenarioId,
    pub parent: Option<ScenarioId>,
    pub depth: Depth,
    pub weight: Prob,
}

impl Ranked for ScenarioMeta {
    /// Higher weight first; among equal weights the lower id.
    open spec fn outranks(self, other: ScenarioMeta) -> bool {
        self.weight.0 > other.weight.0 || (self.weight.0 == other.weight.0 && self.id < other.id)
    }

    open spec fn rank_key(self) -> u64 {
        self.id
    }

    fn precedes(&self, other: &ScenarioMeta) -> (r: bool) {
        self.weight.0 > other.weight.0 || (self.weight.0 == other.weight.0 && self.id < other.id)
    }

    proof fn lemma_strict_order(a: ScenarioMeta, b: ScenarioMeta, c: ScenarioMeta) {
    }
}

/// The predicted delta of one scenario on one grouping key.
#[derive(Debug, Clone, Copy, PartialEq, Eq, Structural)]
pub struct Overlay {
    pub scenario_id: ScenarioId,
    pub key: u64,
    pub delta: i64,
}

/// The parameters of the beam search.
#[derive(Debug, Clone, Copy, PartialEq, Eq, Structural)]
pub struct BeamParams {
    pub max_depth: Depth,
    pub beam_width: usize,
    pub min_prob: Prob,
    pub branch_prob: Prob,
}

/// Why a set of beam parameters is refused.
#[derive(Debug, Clone, Copy, PartialEq, Eq, Structural)]
pub enum ConfigError {
    /// `min_prob` lies outside `[0, 1]`.
    MinProbOutOfRange,
    /// `branch_prob` lies outside `[0, 1]`.
    BranchProbOutOfRange,
}

impl BeamParams {
    pub open spec fn valid(self) -> bool {
        self.min_prob.valid() && self.branch_prob.valid()
    }

    /// Accepts the parameters when both probabilities lie in `[0, 1]`.
    pub fn check(&self) -> (r: Result<(), ConfigError>)
        ensures
            r is Ok <==> self.valid(),
            !self.min_prob.valid() ==> r == Err::<(), ConfigError>(ConfigError::MinProbOutOfRange),
            self.min_prob.valid() && !self.branch_prob.valid() ==> r == Err::<(), ConfigError>(
                ConfigError::BranchProbOutOfRange,
            ),
    {
        if self.min_prob.0 > FIXED_ONE {
            Err(ConfigError::MinProbOutOfRange)
        } else if self.branch_prob.0 > FIXED_ONE {
            Err(ConfigError::BranchProbOutOfRange)
        } else {
            Ok(())
        }
    }
}

/// The implicit root: never materialized, never retired.
pub open spec fn root_scenario() -> ScenarioMeta {
    ScenarioMeta { id: 0, parent: None, depth: 0, weight: Prob(FIXED_ONE) }
}

/// A scenario stays active through the cull.
pub open spec fn survives(m: ScenarioMeta, p: BeamParams) -> bool {
    m.weight.0 >= p.min_prob.0 && m.depth < p.max_depth
}

pub open spec fn child_weight(parent: ScenarioMeta, p: BeamParams) -> Prob {
    parent.weight.spec_mul(p.branch_prob)
}

/// `parent` has a child: it lies below the depth ceiling and the child's
/// weight is positive and reaches `min_prob`. A child of weight zero is never
/// made, so `branch_prob = 0` creates nothing even when `min_prob` is zero.
pub open spec fn branches(parent: ScenarioMeta, p: BeamParams) -> bool {
    &&& parent.depth < p.max_depth
    &&& child_weight(parent, p).0 > 0
    &&& child_weight(parent, p).0 >= p.min_prob.0
}

pub open spec fn child_of(parent: ScenarioMeta, id: u64, p: BeamParams) -> ScenarioMeta {
    ScenarioMeta {
        id,
        parent: if parent.id == 0 {
            None
        } else {
            Some(parent.id)
        },
        depth: (parent.depth + 1) as u32,
        weight: child_weight(parent, p),
    }
}

/// The children of `parents`, in order, with ids allocated from `next` on.
/// Once no id is left below `u64::MAX` no child is made.
pub open spec fn children(parents: Seq<ScenarioMeta>, next: u64, p: BeamParams) -> Seq<ScenarioMeta>
    decreases parents.len(),
{
    if parents.len() == 0 {
        Seq::empty()
    } else if branches(parents[0], p) && next < u64::MAX {
        seq![child_of(parents[0], next, p)] + children(parents.drop_first(), (next + 1) as u64, p)
    } else {
        children(parents.drop_first(), next, p)
    }
}

pub open spec fn overlay_for(id: u64, key: u64, delta: i64) -> Overlay {
    Overlay { scenario_id: id, key, delta }
}

/// Some scenario of `s` has id `id`.
pub open spec fn has_id(s: Seq<ScenarioMeta>, id: u64) -> bool {
    exists|i: int| 0 <= i < s.len() && (#[trigger] s[i]).id == id
}

/// What every active scenario satisfies.
pub open spec fn admitted(m: ScenarioMeta, p: BeamParams, next_id: u64) -> bool {
    &&& 1 <= m.depth <= p.max_depth
    &&& p.min_prob.0 <= m.weight.0 <= FIXED_ONE
    &&& 1 <= m.id < next_id
}

/// The scenarios of `s` that stay active through the cull, in order.
pub open spec fn survivors_of(s: Seq<ScenarioMeta>, p: BeamParams) -> Seq<ScenarioMeta> {
    s.filter(|m: ScenarioMeta| survives(m, p))
}

/// The scenarios of `s` that the cull retires, in order.
pub open spec fn culled_of(s: Seq<ScenarioMeta>, p: BeamParams) -> Seq<ScenarioMeta> {
    s.filter(|m: ScenarioMeta| !survives(m, p))
}

proof fn lemma_filter_step(s: Seq<ScenarioMeta>, i: int, f: spec_fn(ScenarioMeta) -> bool)
    requires
        0 <= i < s.len(),
    ensures
        s.take(i + 1).filter(f) == (if f(s[i]) {
            s.take(i).filter(f).push(s[i])
        } else {
            s.take(i).filter(f)
        }),
{
    reveal(Seq::filter);
    assert(s.take(i + 1).drop_last() =~= s.take(i));
    assert(s.take(i + 1).last() == s[i]);
}

/// Splits `active` into survivors and culled scenarios, each in order.
fn cull(active: &Vec<ScenarioMeta>, p: BeamParams) -> (r: (Vec<ScenarioMeta>, Vec<ScenarioMeta>))
    requires
        distinct_keys(active@),
    ensures
        r.0@ == survivors_of(active@, p),
        r.1@ == culled_of(active@, p),
        distinct_keys(r.0@),
        distinct_keys(r.1@),
        forall|k: int| 0 <= k < r.0@.len() ==> active@.contains(#[trigger] r.0@[k]),
        forall|k: int| 0 <= k < r.1@.len() ==> active@.contains(#[trigger] r.1@[k]),
        forall|k: int| 0 <= k < r.0@.len() ==> survives(#[trigger] r.0@[k], p),
        forall|k: int| 0 <= k < r.1@.len() ==> !survives(#[trigger] r.1@[k], p),
{
    let mut kept: Vec<ScenarioMeta> = Vec::new();
    let mut dropped: Vec<ScenarioMeta> = Vec::new();
    let mut i: usize = 0;
    while i < active.len()
        invariant
            i <= active@.len(),
            distinct_keys(active@),
            kept@ == active@.take(i as int).filter(|m: ScenarioMeta| survives(m, p)),
            dropped@ == active@.take(i as int).filter(|m: ScenarioMeta| !survives(m, p)),
            distinct_keys(kept@),
            distinct_keys(dropped@),
            forall|k: int|
                0 <= k < kept@.len() ==> exists|l: int|
                    0 <= l < i && active@[l] == #[trigger] kept@[k],
            forall|k: int|
                0 <= k < dropped@.len() ==> exists|l: int|
                    0 <= l < i && active@[l] == #[trigger] dropped@[k],
            forall|k: int| 0 <= k < kept@.len() ==> survives(#[trigger] kept@[k], p),
            forall|k: int| 0 <= k < dropped@.len() ==> !survives(#[trigger] dropped@[k], p),
        decreases active@.len() - i,
    {
        let m = active[i];
        proof {
            lemma_filter_step(active@, i as int, |m: ScenarioMeta| survives(m, p));
            lemma_filter_step(active@, i as int, |m: ScenarioMeta| !survives(m, p));
        }
        if m.weight.0 >= p.min_prob.0 && m.depth < p.max_depth {
            proof {
                assert forall|k: int| 0 <= k < kept@.len() implies (#[trigger] kept@[k]).id != m.id by {
                    let l = choose|l: int| 0 <= l < i && active@[l] == kept@[k];
                    assert(active@[l].rank_key() != active@[i as int].rank_key());
                }
            }
            kept.push(m);
            proof {
                assert forall|k: int| 0 <= k < kept@.len() implies exists|l: int|
                    0 <= l < i + 1 && active@[l] == #[trigger] kept@[k] by {
                    if k < kept@.len() - 1 {
                        let l = choose|l: int| 0 <= l < i && active@[l] == kept@[k];
                        assert(0 <= l < i + 1 && active@[l] == kept@[k]);
                    } else {
                        assert(active@[i as int] == kept@[k]);
                    }
                }
            }
        } else {
            proof {
                assert forall|k: int| 0 <= k < dropped@.len() implies (#[trigger] dropped@[k]).id
                    != m.id by {
                    let l = choose|l: int| 0 <= l < i && active@[l] == dropped@[k];
                    assert(active@[l].rank_key() != active@[i as int].rank_key());
                }
            }
            dropped.push(m);
            proof {
                assert forall|k: int| 0 <= k < dropped@.len() implies exists|l: int|
                    0 <= l < i + 1 && active@[l] == #[trigger] dropped@[k] by {
                    if k < dropped@.len() - 1 {
                        let l = choose|l: int| 0 <= l < i && active@[l] == dropped@[k];
                        assert(0 <= l < i + 1 && active@[l] == dropped@[k]);
                    } else {
                        assert(active@[i as int] == dropped@[k]);
                    }
                }
            }
        }
        i = i + 1;
    }
    assert(active@.take(active@.len() as int) =~= active@);
    assert forall|k: int| 0 <= k < kept@.len() implies active@.contains(#[trigger] kept@[k]) by {
        let l = choose|l: int| 0 <= l < i && active@[l] == kept@[k];
    }
    assert forall|k: int| 0 <= k < dropped@.len() implies active@.contains(#[trigger] dropped@[k]) by {
        let l = choose|l: int| 0 <= l < i && active@[l] == dropped@[k];
    }
    (kept, dropped)
}

/// Every id of a well-formed active set lies below the allocator.
proof fn lemma_old_ids_below(active: Seq<ScenarioMeta>, p: BeamParams, next: u64)
    requires
        forall|i: int| 0 <= i < active.len() ==> admitted(#[trigger] active[i], p, next),
    ensures
        forall|x: ScenarioMeta| active.contains(x) ==> x.id < next,
{
    assert forall|x: ScenarioMeta| active.contains(x) implies x.id < next by {
        let l = choose|l: int| 0 <= l < active.len() && active[l] == x;
        assert(admitted(active[l], p, next));
    }
}

/// An item of `a + b` is an item of `a` or of `b`, and conversely.
proof fn lemma_cands_membership(a: Seq<ScenarioMeta>, b: Seq<ScenarioMeta>, c: Seq<ScenarioMeta>)
    requires
        c == a + b,
    ensures
        forall|x: ScenarioMeta| c.contains(x) <==> (a.contains(x) || b.contains(x)),
{
    assert forall|x: ScenarioMeta| c.contains(x) <==> (a.contains(x) || b.contains(x)) by {
        if c.contains(x) {
            let i = choose|i: int| 0 <= i < c.len() && c[i] == x;
            if i < a.len() {
                assert(a[i] == x);
            } else {
                assert(b[i - a.len()] == x);
            }
        }
        if a.contains(x) {
            let i = choose|i: int| 0 <= i < a.len() && a[i] == x;
            assert(c[i] == x);
        }
        if b.contains(x) {
            let i = choose|i: int| 0 <= i < b.len() && b[i] == x;
            assert(c[i + a.len()] == x);
        }
    }
}

/// What one call of `expand` reports.
pub struct BeamStep {
    pub created: Vec<ScenarioMeta>,
    pub retired: Vec<ScenarioMeta>,
    pub overlays_added: Vec<Overlay>,
    pub overlays_removed: Vec<Overlay>,
}

/// What `expand(key, delta)` does to a registry `before`, giving `after` and
/// reporting what it created, retired, added and removed:
/// - the cull splits the active set into survivors and culled scenarios;
/// - the root, then each survivor, has a child when it branches, with ids
///   taken in order from the allocator, each child with the overlay
///   `(id, key, delta)`;
/// - the new active set is the `beam_width` best of survivors and children;
/// - the culled scenarios, then the evicted ones, are retired, and their
///   overlays removed.
pub open spec fn expanded(
    before: Beam,
    after: Beam,
    created: Seq<ScenarioMeta>,
    retired: Seq<ScenarioMeta>,
    added: Seq<Overlay>,
    removed: Seq<Overlay>,
    key: u64,
    delta: i64,
) -> bool {
    let p = before.spec_params();
    let surv = survivors_of(before.spec_active(), p);
    let culled = culled_of(before.spec_active(), p);
    let evicted = retired.skip(culled.len() as int);
    &&& after.wf()
    &&& after.spec_params() == p
    &&& created == children(seq![root_scenario()] + surv, before.spec_next_id(), p)
    &&& after.spec_next_id() == before.spec_next_id() + created.len()
    &&& forall|k: int|
        0 <= k < created.len() ==> (#[trigger] created[k]).id == before.spec_next_id() + k
    &&& added.len() == created.len()
    &&& forall|k: int|
        0 <= k < created.len() ==> #[trigger] added[k] == overlay_for(
            created[k].id,
            key,
            delta,
        )
    &&& retired.len() >= culled.len()
    &&& retired.take(culled.len() as int) == culled
    &&& distinct_keys(retired)
    &&& is_ranked_split(surv + created, after.spec_active(), evicted, p.beam_width as nat)
    &&& removed.len() == retired.len()
    &&& forall|k: int|
        0 <= k < retired.len() ==> #[trigger] removed[k] == (
        if before.spec_overlays().contains_key(retired[k].id) {
            before.spec_overlays()[retired[k].id]
        } else {
            overlay_for(retired[k].id, key, delta)
        })
    &&& forall|k: int|
        0 <= k < retired.len() ==> !after.spec_overlays().contains_key(
            (#[trigger] retired[k]).id,
        )
    &&& forall|id: u64|
        #[trigger] after.spec_overlays().contains_key(id) ==> after.spec_overlays()[id] == (
        if before.spec_overlays().contains_key(id) {
            before.spec_overlays()[id]
        } else {
            overlay_for(id, key, delta)
        })
}

/// The scenario registry: active set, overlay map and id allocator.
pub struct Beam {
    params: BeamParams,
    next_id: u64,
    active: Vec<ScenarioMeta>,
    overlays: HashMap<u64, Overlay>,
}

impl Beam {
    pub closed spec fn spec_params(&self) -> BeamParams {
        self.params
    }

    pub closed spec fn spec_next_id(&self) -> u64 {
        self.next_id
    }

    /// The active set, best first.
    pub closed spec fn spec_active(&self) -> Seq<ScenarioMeta> {
        self.active@
    }

    /// The overlay map, keyed by scenario id.
    pub closed spec fn spec_overlays(&self) -> Map<u64, Overlay> {
        self.overlays@
    }

    pub open spec fn wf(&self) -> bool {
        &&& self.spec_params().valid()
        &&& self.spec_next_id() >= 1
        &&& self.spec_active().len() <= self.spec_params().beam_width
        &&& sorted_by_rank(self.spec_active())
        &&& distinct_keys(self.spec_active())
        &&& forall|i: int|
            0 <= i < self.spec_active().len() ==> admitted(
                #[trigger] self.spec_active()[i],
                self.spec_params(),
                self.spec_next_id(),
            )
        &&& forall|id: u64|
            #[trigger] self.spec_overlays().contains_key(id) <==> has_id(self.spec_active(), id)
        &&& forall|id: u64|
            #[trigger] self.spec_overlays().contains_key(id) ==> self.spec_overlays()[id].scenario_id
                == id
    }

    /// An empty registry whose first id is 1.
    pub fn new(params: BeamParams) -> (r: Beam)
        requires
            params.valid(),
        ensures
            r.wf(),
            r.spec_params() == params,
            r.spec_next_id() == 1,
            r.spec_active().len() == 0,
            r.spec_overlays().is_empty(),
    {
        let r = Beam { params, next_id: 1, active: Vec::new(), overlays: HashMap::new() };
        assert(r.overlays@ =~= Map::<u64, Overlay>::empty());
        r
    }

    /// Gives every parent that branches one child, allocating ids in order,
    /// and inserts each child's overlay.
    fn spawn(&mut self, parents: &Vec<ScenarioMeta>, key: u64, delta: i64) -> (r: (
        Vec<ScenarioMeta>,
        Vec<Overlay>,
    ))
        requires
            old(self).params.valid(),
            old(self).next_id >= 1,
            forall|k: int| 0 <= k < parents@.len() ==> (#[trigger] parents@[k]).weight.0 <= FIXED_ONE,
            forall|id: u64| #[trigger] old(self).overlays@.contains_key(id) ==> id < old(self).next_id,
        ensures
            r.0@ == children(parents@, old(self).next_id, old(self).params),
            final(self).next_id == old(self).next_id + r.0@.len(),
            final(self).params == old(self).params,
            final(self).active@ == old(self).active@,
            r.1@.len() == r.0@.len(),
            forall|k: int|
                0 <= k < r.0@.len() ==> (#[trigger] r.0@[k]).id == old(self).next_id + k && admitted(
                    r.0@[k],
                    old(self).params,
                    final(self).next_id,
                ),
            forall|k: int|
                0 <= k < r.1@.len() ==> #[trigger] r.1@[k] == overlay_for(r.0@[k].id, key, delta),
            forall|id: u64|
                #[trigger] final(self).overlays@.contains_key(id) <==> (old(self).overlays@.contains_key(
                    id,
                ) || old(self).next_id <= id < final(self).next_id),
            forall|id: u64|
                #[trigger] final(self).overlays@.contains_key(id) ==> final(self).overlays@[id] == (
                if old(self).overlays@.contains_key(id) {
                    old(self).overlays@[id]
                } else {
                    overlay_for(id, key, delta)
                }),
    {
        let p = self.params;
        let ghost next0 = self.next_id;
        let ghost old_overlays = self.overlays@;
        let ghost old_active = self.active@;
        let mut created: Vec<ScenarioMeta> = Vec::new();
        let mut added: Vec<Overlay> = Vec::new();
        let mut j: usize = 0;
        assert(parents@.skip(0) =~= parents@);
        assert(created@ + children(parents@, next0, p) =~= children(parents@, next0, p));
        while j < parents.len()
            invariant
                j <= parents@.len(),
                p == self.params,
                self.active@ == old_active,
                p.valid(),
                next0 >= 1,
                forall|k: int| 0 <= k < parents@.len() ==> (#[trigger] parents@[k]).weight.0 <= FIXED_ONE,
                forall|id: u64| #[trigger] old_overlays.contains_key(id) ==> id < next0,
                created@ + children(parents@.skip(j as int), self.next_id, p) == children(
                    parents@,
                    next0,
                    p,
                ),
                self.next_id == next0 + created@.len(),
                added@.len() == created@.len(),
                forall|k: int|
                    0 <= k < created@.len() ==> (#[trigger] created@[k]).id == next0 + k && admitted(
                        created@[k],
                        p,
                        self.next_id,
                    ),
                forall|k: int|
                    0 <= k < added@.len() ==> #[trigger] added@[k] == overlay_for(
                        created@[k].id,
                        key,
                        delta,
                    ),
                forall|id: u64|
                    #[trigger] self.overlays@.contains_key(id) <==> (old_overlays.contains_key(id)
                        || next0 <= id < self.next_id),
                forall|id: u64|
                    #[trigger] self.overlays@.contains_key(id) ==> self.overlays@[id] == (
                    if old_overlays.contains_key(id) {
                        old_overlays[id]
                    } else {
                        overlay_for(id, key, delta)
                    }),
            decreases parents@.len() - j,
        {
            let par = parents[j];
            let ghost rest = parents@.skip(j as int);
            assert(rest[0] == par);
            assert(rest.drop_first() =~= parents@.skip(j + 1));
            if par.depth < p.max_depth {
                let w = par.weight.mul(p.branch_prob);
                if w.0 > 0 && w.0 >= p.min_prob.0 && self.next_id < u64::MAX {
                    let id = self.next_id;
                    self.next_id = id + 1;
                    let child = ScenarioMeta {
                        id,
                        parent: if par.id == 0 {
                            None
                        } else {
                            Some(par.id)
                        },
                        depth: par.depth + 1,
                        weight: w,
                    };
                    let ov = Overlay { scenario_id: id, key, delta };
                    self.overlays.insert(id, ov);
                    let ghost before = created@;
                    created.push(child);
                    added.push(ov);
                    assert(before + seq![child] =~= created@);
                    assert(created@ + children(parents@.skip(j + 1), self.next_id, p) =~= before + (
                    seq![child] + children(parents@.skip(j + 1), self.next_id, p)));
                }
            }
            j = j + 1;
        }
        assert(parents@.skip(j as int) =~= Seq::<ScenarioMeta>::empty());
        assert(created@ =~= created@ + Seq::<ScenarioMeta>::empty());
        (created, added)
    }

    /// Removes the overlay of every scenario of `retired` and returns them in
    /// the same order.
    fn retire(&mut self, retired: &Vec<ScenarioMeta>) -> (removed: Vec<Overlay>)
        requires
            distinct_keys(retired@),
            forall|k: int|
                0 <= k < retired@.len() ==> old(self).overlays@.contains_key(
                    (#[trigger] retired@[k]).id,
                ),
        ensures
            final(self).params == old(self).params,
            final(self).next_id == old(self).next_id,
            final(self).active@ == old(self).active@,
            removed@.len() == retired@.len(),
            forall|k: int|
                0 <= k < removed@.len() ==> #[trigger] removed@[k] == old(self).overlays@[retired@[k].id],
            forall|id: u64|
                #[trigger] final(self).overlays@.contains_key(id) <==> (old(self).overlays@.contains_key(
                    id,
                ) && !has_id(retired@, id)),
            forall|id: u64|
                #[trigger] final(self).overlays@.contains_key(id) ==> final(self).overlays@[id]
                    == old(self).overlays@[id],
    {
        let ghost start = self.overlays@;
        let ghost old_active = self.active@;
        let mut removed: Vec<Overlay> = Vec::new();
        let mut k: usize = 0;
        while k < retired.len()
            invariant
                k <= retired@.len(),
                distinct_keys(retired@),
                self.active@ == old_active,
                self.params == old(self).params,
                self.next_id == old(self).next_id,
                start == old(self).overlays@,
                forall|l: int| 0 <= l < retired@.len() ==> start.contains_key((#[trigger] retired@[l]).id),
                removed@.len() == k,
                forall|l: int| 0 <= l < k ==> #[trigger] removed@[l] == start[retired@[l].id],
                forall|id: u64|
                    #[trigger] self.overlays@.contains_key(id) <==> (start.contains_key(id) && !has_id(
                        retired@.take(k as int),
                        id,
                    )),
                forall|id: u64| #[trigger] self.overlays@.contains_key(id) ==> self.overlays@[id] == start[id],
            decreases retired@.len() - k,
        {
            let r = retired[k];
            proof {
                if has_id(retired@.take(k as int), r.id) {
                    let l = choose|l: int|
                        0 <= l < retired@.take(k as int).len() && (#[trigger] retired@.take(
                            k as int,
                        )[l]).id == r.id;
                    assert(retired@[l].rank_key() != retired@[k as int].rank_key());
                }
                assert(self.overlays@.contains_key(r.id));
            }
            let got = self.overlays.remove(&r.id);
            match got {
                Some(ov) => {
                    removed.push(ov);
                },
                None => {},
            }
            proof {
                let t1 = retired@.take(k + 1);
                let t0 = retired@.take(k as int);
                assert forall|id: u64| has_id(t1, id) <==> (has_id(t0, id) || id == r.id) by {
                    if has_id(t1, id) {
                        let l = choose|l: int| 0 <= l < t1.len() && (#[trigger] t1[l]).id == id;
                        if l < k {
                            assert(t0[l] == t1[l]);
                        }
                    }
                    if has_id(t0, id) {
                        let l = choose|l: int| 0 <= l < t0.len() && (#[trigger] t0[l]).id == id;
                        assert(t1[l] == t0[l]);
                    }
                    if id == r.id {
                        assert(t1[k as int] == r);
                    }
                }
            }
            k = k + 1;
        }
        assert(retired@.take(k as int) =~= retired@);
        removed
    }

    /// One step of the beam search for a base event whose grouping key is
    /// `key` and whose predicted delta is `delta`.
    pub fn expand(&mut self, key: u64, delta: i64) -> (step: BeamStep)
        requires
            old(self).wf(),
        ensures
            expanded(
                *old(self),
                *final(self),
                step.created@,
                step.retired@,
                step.overlays_added@,
                step.overlays_removed@,
                key,
                delta,
            ),
    {
        let p = self.params;
        let ghost before = *self;
        let ghost next0 = self.next_id;
        let ghost active0 = self.active@;
        let (surv, mut retired) = cull(&self.active, p);
        let ghost culled = retired@;
        let mut parents: Vec<ScenarioMeta> = Vec::new();
        parents.push(ScenarioMeta { id: 0, parent: None, depth: 0, weight: Prob::one() });
        append_all(&mut parents, &surv);
        proof {
            assert(parents@ =~= seq![root_scenario()] + surv@);
            assert forall|k: int| 0 <= k < parents@.len() implies (#[trigger] parents@[k]).weight.0
                <= FIXED_ONE by {
                if k > 0 {
                    assert(parents@[k] == surv@[k - 1]);
                    assert(active0.contains(surv@[k - 1]));
                    let l = choose|l: int| 0 <= l < active0.len() && active0[l] == surv@[k - 1];
                    assert(admitted(active0[l], p, next0));
                }
            }
            assert forall|id: u64| #[trigger] self.overlays@.contains_key(id) implies id < self.next_id by {
                assert(before.spec_overlays().contains_key(id));
                assert(has_id(before.spec_active(), id));
                let l = choose|l: int| 0 <= l < active0.len() && (#[trigger] active0[l]).id == id;
                assert(admitted(active0[l], p, next0));
            }
        }
        let ghost mid_overlays0 = self.overlays@;
        let (created, added) = self.spawn(&parents, key, delta);
        let ghost mid = self.overlays@;
        let mut cands: Vec<ScenarioMeta> = Vec::new();
        append_all(&mut cands, &surv);
        append_all(&mut cands, &created);
        proof {
            assert(cands@ =~= surv@ + created@);
            lemma_old_ids_below(active0, p, next0);
            assert forall|i: int, j: int|
                0 <= i < cands@.len() && 0 <= j < cands@.len() && i != j implies (
            #[trigger] cands@[i]).rank_key() != (#[trigger] cands@[j]).rank_key() by {
                let n = surv@.len() as int;
                if i < n && j < n {
                    assert(surv@[i].rank_key() != surv@[j].rank_key());
                } else if i >= n && j >= n {
                    assert(created@[i - n].id == next0 + (i - n));
                    assert(created@[j - n].id == next0 + (j - n));
                } else if i < n {
                    assert(active0.contains(surv@[i]));
                    assert(created@[j - n].id == next0 + (j - n));
                } else {
                    assert(active0.contains(surv@[j]));
                    assert(created@[i - n].id == next0 + (i - n));
                }
            }
        }
        let (top, evicted) = split_top(&cands, p.beam_width);
        append_all(&mut retired, &evicted);
        proof {
            lemma_sorted_subset_distinct(cands@, top@);
            lemma_sorted_subset_distinct(cands@, evicted@);
            lemma_cands_membership(surv@, created@, cands@);
            let n = culled.len() as int;
            assert(retired@ =~= culled + evicted@);
            assert forall|i: int, j: int|
                0 <= i < retired@.len() && 0 <= j < retired@.len() && i != j implies (
            #[trigger] retired@[i]).rank_key() != (#[trigger] retired@[j]).rank_key() by {
                if i < n && j < n {
                    assert(culled[i].rank_key() != culled[j].rank_key());
                } else if i >= n && j >= n {
                    assert(evicted@[i - n].rank_key() != evicted@[j - n].rank_key());
                } else {
                    let (c, e) = if i < n {
                        (culled[i], evicted@[j - n])
                    } else {
                        (culled[j], evicted@[i - n])
                    };
                    assert(evicted@.contains(e));
                    assert(cands@.contains(e));
                    assert(active0.contains(c));
                    if surv@.contains(e) {
                        assert(active0.contains(e));
                        if c.id == e.id {
                            lemma_same_key_same_item(active0, c, e);
                            let q = choose|q: int| 0 <= q < surv@.len() && surv@[q] == e;
                            assert(survives(surv@[q], p));
                        }
                    } else {
                        let q = choose|q: int| 0 <= q < created@.len() && created@[q] == e;
                        assert(created@[q].id == next0 + q);
                    }
                }
            }
            assert forall|k: int| 0 <= k < retired@.len() implies self.overlays@.contains_key(
                (#[trigger] retired@[k]).id,
            ) by {
                let r = retired@[k];
                if k < n {
                    assert(active0.contains(culled[k]));
                    let l = choose|l: int| 0 <= l < active0.len() && active0[l] == culled[k];
                    assert(has_id(active0, r.id));
                    assert(before.spec_overlays().contains_key(r.id));
                } else {
                    assert(evicted@.contains(evicted@[k - n]));
                    assert(cands@.contains(r));
                    if surv@.contains(r) {
                        assert(active0.contains(r));
                        let l = choose|l: int| 0 <= l < active0.len() && active0[l] == r;
                        assert(has_id(active0, r.id));
                        assert(before.spec_overlays().contains_key(r.id));
                    } else {
                        let q = choose|q: int| 0 <= q < created@.len() && created@[q] == r;
                        assert(created@[q].id == next0 + q);
                    }
                }
            }
        }
        let removed = self.retire(&retired);
        self.active = top;
        let step = BeamStep { created, retired, overlays_added: added, overlays_removed: removed };
        proof {
            let n = culled.len() as int;
            assert(step.retired@.take(n) =~= culled);
            assert(step.retired@.skip(n) =~= evicted@);
            lemma_cands_membership(surv@, created@, cands@);
            // every active scenario is admitted
            assert forall|i: int| 0 <= i < top@.len() implies admitted(
                #[trigger] top@[i],
                p,
                self.next_id,
            ) by {
                let x = top@[i];
                assert(top@.contains(x));
                assert(cands@.contains(x));
                if surv@.contains(x) {
                    assert(active0.contains(x));
                    let l = choose|l: int| 0 <= l < active0.len() && active0[l] == x;
                    assert(admitted(active0[l], p, next0));
                } else {
                    let q = choose|q: int| 0 <= q < created@.len() && created@[q] == x;
                }
            }
            // the overlay map covers exactly the active set
            assert forall|id: u64| #[trigger] self.overlays@.contains_key(id) <==> has_id(top@, id) by {
                if has_id(top@, id) {
                    let i = choose|i: int| 0 <= i < top@.len() && (#[trigger] top@[i]).id == id;
                    let x = top@[i];
                    assert(top@.contains(x));
                    assert(cands@.contains(x));
                    if surv@.contains(x) {
                        assert(active0.contains(x));
                        let l = choose|l: int| 0 <= l < active0.len() && active0[l] == x;
                        assert(has_id(active0, id));
                        assert(before.spec_overlays().contains_key(id));
                    } else {
                        let q = choose|q: int| 0 <= q < created@.len() && created@[q] == x;
                        assert(created@[q].id == next0 + q);
                    }
                    assert(mid.contains_key(id));
                    if has_id(retired@, id) {
                        let k = choose|k: int| 0 <= k < retired@.len() && (#[trigger] retired@[k]).id
                            == id;
                        let r = retired@[k];
                        if k < n {
                            assert(active0.contains(culled[k]));
                            if surv@.contains(x) {
                                assert(active0.contains(x));
                                lemma_same_key_same_item(active0, x, r);
                                let q = choose|q: int| 0 <= q < surv@.len() && surv@[q] == x;
                                assert(survives(surv@[q], p));
                                assert(!survives(culled[k], p));
                            } else {
                                let q = choose|q: int| 0 <= q < created@.len() && created@[q] == x;
                                assert(created@[q].id == next0 + q);
                            }
                        } else {
                            assert(evicted@.contains(evicted@[k - n]));
                            assert(cands@.contains(r));
                            lemma_same_key_same_item(cands@, x, r);
                            assert(top@[i].outranks(evicted@[k - n]));
                            ScenarioMeta::lemma_strict_order(x, x, x);
                        }
                    }
                }
                if self.overlays@.contains_key(id) {
                    assert(mid.contains_key(id) && !has_id(retired@, id));
                    let x = if mid_overlays0.contains_key(id) {
                        assert(before.spec_overlays().contains_key(id));
                        let l = choose|l: int| 0 <= l < active0.len() && (#[trigger] active0[l]).id
                            == id;
                        let x = active0[l];
                        if !survives(x, p) {
                            active0.lemma_filter_contains(|m: ScenarioMeta| !survives(m, p), l);
                            let c = choose|c: int| 0 <= c < culled.len() && culled[c] == x;
                            assert(retired@[c] == x);
                        } else {
                            active0.lemma_filter_contains(|m: ScenarioMeta| survives(m, p), l);
                        }
                        x
                    } else {
                        let q = (id - next0) as int;
                        assert(created@[q].id == id);
                        assert(created@.contains(created@[q]));
                        created@[q]
                    };
                    assert(cands@.contains(x));
                    if evicted@.contains(x) {
                        let e = choose|e: int| 0 <= e < evicted@.len() && evicted@[e] == x;
                        assert(retired@[n + e] == x);
                    }
                    assert(top@.contains(x));
                    let i = choose|i: int| 0 <= i < top@.len() && top@[i] == x;
                    assert(top@[i].id == id);
                }
            }
            assert forall|k: int| 0 <= k < step.retired@.len() implies !self.overlays@.contains_key(
                (#[trigger] step.retired@[k]).id,
            ) by {
                assert(step.retired@[k].id == retired@[k].id);
            }
            assert forall|id: u64| #[trigger] self.overlays@.contains_key(id) implies self.overlays@[id].scenario_id
                == id by {
                if mid_overlays0.contains_key(id) {
                    assert(before.spec_overlays().contains_key(id));
                }
            }
            assert(self.active@.len() <= p.beam_width);
            assert(distinct_keys(self.active@));
            assert(self.wf());
        }
        step
    }

    pub fn params(&self) -> (r: BeamParams)
        ensures
            r == self.spec_params(),
    {
        self.params
    }

    /// The id that the next scenario will get.
    pub fn next_id(&self) -> (r: u64)
        ensures
            r == self.spec_next_id(),
    {
        self.next_id
    }

    pub fn active_len(&self) -> (r: usize)
        ensures
            r == self.spec_active().len(),
    {
        self.active.len()
    }

    /// The active set, best first.
    pub fn active(&self) -> (r: &Vec<ScenarioMeta>)
        ensures
            r@ == self.spec_active(),
    {
        &self.active
    }

    /// The overlay of scenario `id`, if it is active.
    pub fn overlay(&self, id: ScenarioId) -> (r: Option<Overlay>)
        ensures
            r == (if self.spec_overlays().contains_key(id) {
                Some(self.spec_overlays()[id])
            } else {
                None
            }),
    {
        match self.overlays.get(&id) {
            Some(o) => Some(*o),
            None => None,
        }
    }
}


proof fn lemma_children_len(ps: Seq<ScenarioMeta>, next: u64, p: BeamParams)
    ensures
        children(ps, next, p).len() <= ps.len(),
    decreases ps.len(),
{
    if ps.len() > 0 {
        lemma_children_len(ps.drop_first(), next, p);
        lemma_children_len(ps.drop_first(), (next + 1) as u64, p);
    }
}

proof fn lemma_children_none(ps: Seq<ScenarioMeta>, next: u64, p: BeamParams)
    requires
        forall|i: int| 0 <= i < ps.len() ==> !branches(#[trigger] ps[i], p),
    ensures
        children(ps, next, p).len() == 0,
    decreases ps.len(),
{
    if ps.len() > 0 {
        assert(!branches(ps[0], p));
        assert forall|i: int| 0 <= i < ps.drop_first().len() implies !branches(
            #[trigger] ps.drop_first()[i],
            p,
        ) by {
            assert(ps.drop_first()[i] == ps[i + 1]);
        }
        lemma_children_none(ps.drop_first(), next, p);
    }
}

/// After every expansion the active set holds at most `beam_width`
/// scenarios, and each has a depth in `[1, max_depth]` and a weight of at
/// least `min_prob`.
pub proof fn lemma_active_bounds(before: Beam,
    after: Beam,
    created: Seq<ScenarioMeta>,
    retired: Seq<ScenarioMeta>,
    added: Seq<Overlay>,
    removed: Seq<Overlay>,
    key: u64,
    delta: i64,
)
    requires
        expanded(before, after, created, retired, added, removed, key, delta),
    ensures
        after.spec_active().len() <= after.spec_params().beam_width,
        forall|i: int|
            0 <= i < after.spec_active().len() ==> {
                let m = #[trigger] after.spec_active()[i];
                &&& 1 <= m.depth <= after.spec_params().max_depth
                &&& m.weight.0 >= after.spec_params().min_prob.0
            },
{
    assert forall|i: int| 0 <= i < after.spec_active().len() implies {
        let m = #[trigger] after.spec_active()[i];
        &&& 1 <= m.depth <= after.spec_params().max_depth
        &&& m.weight.0 >= after.spec_params().min_prob.0
    } by {
        assert(admitted(after.spec_active()[i], after.spec_params(), after.spec_next_id()));
    }
}

/// After every expansion each active scenario has exactly one overlay, its
/// own, and no retired scenario has any.
pub proof fn lemma_overlays_follow_scenarios(
    before: Beam,
    after: Beam,
    created: Seq<ScenarioMeta>,
    retired: Seq<ScenarioMeta>,
    added: Seq<Overlay>,
    removed: Seq<Overlay>,
    key: u64,
    delta: i64,
)
    requires
        before.wf(),
        expanded(before, after, created, retired, added, removed, key, delta),
    ensures
        forall|i: int|
            0 <= i < after.spec_active().len() ==> {
                let id = (#[trigger] after.spec_active()[i]).id;
                &&& after.spec_overlays().contains_key(id)
                &&& after.spec_overlays()[id].scenario_id == id
            },
        forall|k: int|
            0 <= k < retired.len() ==> !after.spec_overlays().contains_key(
                (#[trigger] retired[k]).id,
            ),
        forall|id: u64|
            #[trigger] after.spec_overlays().contains_key(id) ==> has_id(after.spec_active(), id),
        forall|k: int| 0 <= k < retired.len() ==> (#[trigger] removed[k]).scenario_id == retired[k].id,
        forall|i: int, j: int|
            0 <= i < retired.len() && 0 <= j < retired.len() && i != j ==> (#[trigger] retired[i]).id
                != (#[trigger] retired[j]).id,
{
    assert forall|k: int| 0 <= k < retired.len() implies (#[trigger] removed[k]).scenario_id
        == retired[k].id by {
        if before.spec_overlays().contains_key(retired[k].id) {
            assert(before.wf());
        }
    }
    assert forall|i: int, j: int|
        0 <= i < retired.len() && 0 <= j < retired.len() && i != j implies (#[trigger] retired[i]).id
        != (#[trigger] retired[j]).id by {
        assert(retired[i].rank_key() != retired[j].rank_key());
    }
    assert forall|i: int| 0 <= i < after.spec_active().len() implies {
        let id = (#[trigger] after.spec_active()[i]).id;
        &&& after.spec_overlays().contains_key(id)
        &&& after.spec_overlays()[id].scenario_id == id
    } by {
        assert(has_id(after.spec_active(), after.spec_active()[i].id));
    }
}

/// Ids are allocated in strictly increasing order: the children of one
/// expansion get consecutive ids, all above every id allocated before, and
/// the allocator never moves back.
pub proof fn lemma_ids_strictly_increase(
    before: Beam,
    after: Beam,
    created: Seq<ScenarioMeta>,
    retired: Seq<ScenarioMeta>,
    added: Seq<Overlay>,
    removed: Seq<Overlay>,
    key: u64,
    delta: i64,
)
    requires
        before.wf(),
        expanded(before, after, created, retired, added, removed, key, delta),
    ensures
        forall|i: int, j: int|
            0 <= i < j < created.len() ==> (#[trigger] created[i]).id < (
            #[trigger] created[j]).id,
        forall|i: int, k: int|
            0 <= i < before.spec_active().len() && 0 <= k < created.len() ==> (
            #[trigger] before.spec_active()[i]).id < (#[trigger] created[k]).id,
        forall|k: int|
            0 <= k < created.len() ==> before.spec_next_id() <= (
            #[trigger] created[k]).id < after.spec_next_id(),
        before.spec_next_id() <= after.spec_next_id(),
{
    assert forall|i: int, k: int|
        0 <= i < before.spec_active().len() && 0 <= k < created.len() implies (
    #[trigger] before.spec_active()[i]).id < (#[trigger] created[k]).id by {
        assert(admitted(before.spec_active()[i], before.spec_params(), before.spec_next_id()));
    }
}

/// One expansion creates at most one child per survivor, plus one for the
/// root.
pub proof fn lemma_created_bound(before: Beam,
    after: Beam,
    created: Seq<ScenarioMeta>,
    retired: Seq<ScenarioMeta>,
    added: Seq<Overlay>,
    removed: Seq<Overlay>,
    key: u64,
    delta: i64,
)
    requires
        expanded(before, after, created, retired, added, removed, key, delta),
    ensures
        created.len() <= survivors_of(before.spec_active(), before.spec_params()).len() + 1,
{
    let p = before.spec_params();
    let surv = survivors_of(before.spec_active(), p);
    lemma_children_len(seq![root_scenario()] + surv, before.spec_next_id(), p);
}

/// With `branch_prob = 0` no scenario is ever created: every child would
/// have weight zero, and such a child is never made.
pub proof fn lemma_no_branch_prob_no_children(
    before: Beam,
    after: Beam,
    created: Seq<ScenarioMeta>,
    retired: Seq<ScenarioMeta>,
    added: Seq<Overlay>,
    removed: Seq<Overlay>,
    key: u64,
    delta: i64,
)
    requires
        expanded(before, after, created, retired, added, removed, key, delta),
        before.spec_params().branch_prob.0 == 0,
    ensures
        created.len() == 0,
{
    let p = before.spec_params();
    let ps = seq![root_scenario()] + survivors_of(before.spec_active(), p);
    assert forall|i: int| 0 <= i < ps.len() implies !branches(#[trigger] ps[i], p) by {
        let w = ps[i].weight.0 as nat;
        assert(w * 0 == 0);
    }
    lemma_children_none(ps, before.spec_next_id(), p);
}

/// With `max_depth = 0` no scenario is ever created: the root has depth 0.
pub proof fn lemma_no_depth_no_children(
    before: Beam,
    after: Beam,
    created: Seq<ScenarioMeta>,
    retired: Seq<ScenarioMeta>,
    added: Seq<Overlay>,
    removed: Seq<Overlay>,
    key: u64,
    delta: i64,
)
    requires
        expanded(before, after, created, retired, added, removed, key, delta),
        before.spec_params().max_depth == 0,
    ensures
        created.len() == 0,
        after.spec_active().len() == 0,
{
    let p = before.spec_params();
    let ps = seq![root_scenario()] + survivors_of(before.spec_active(), p);
    lemma_children_none(ps, before.spec_next_id(), p);
    if after.spec_active().len() > 0 {
        assert(admitted(after.spec_active()[0], after.spec_params(), after.spec_next_id()));
    }
}

/// With `beam_width = 0` no scenario survives a call: the active set is
/// empty and every scenario created is retired in the same call.
pub proof fn lemma_zero_width_retires_all(
    before: Beam,
    after: Beam,
    created: Seq<ScenarioMeta>,
    retired: Seq<ScenarioMeta>,
    added: Seq<Overlay>,
    removed: Seq<Overlay>,
    key: u64,
    delta: i64,
)
    requires
        before.wf(),
        expanded(before, after, created, retired, added, removed, key, delta),
        before.spec_params().beam_width == 0,
    ensures
        after.spec_active().len() == 0,
        forall|k: int| 0 <= k < created.len() ==> retired.contains(#[trigger] created[k]),
        forall|k: int| 0 <= k < added.len() ==> removed.contains(#[trigger] added[k]),
{
    let p = before.spec_params();
    let surv = survivors_of(before.spec_active(), p);
    let culled = culled_of(before.spec_active(), p);
    let cands = surv + created;
    let evicted = retired.skip(culled.len() as int);
    assert forall|k: int| 0 <= k < created.len() implies retired.contains(
        #[trigger] created[k],
    ) by {
        let x = created[k];
        assert(cands[surv.len() + k] == x);
        assert(cands.contains(x));
        assert(evicted.contains(x));
        let e = choose|e: int| 0 <= e < evicted.len() && evicted[e] == x;
        assert(retired[culled.len() + e] == x);
    }
    assert forall|k: int| 0 <= k < added.len() implies removed.contains(#[trigger] added[k]) by {
        let x = created[k];
        assert(retired.contains(x));
        let r = choose|r: int| 0 <= r < retired.len() && retired[r] == x;
        if before.spec_overlays().contains_key(x.id) {
            assert(has_id(before.spec_active(), x.id));
            let l = choose|l: int|
                0 <= l < before.spec_active().len() && (#[trigger] before.spec_active()[l]).id == x.id;
            assert(admitted(before.spec_active()[l], before.spec_params(), before.spec_next_id()));
        }
        assert(removed[r] == added[k]);
    }
}

/// The active set is ordered by weight descending, and of two scenarios of
/// equal weight the one with the lower id comes first.
pub proof fn lemma_ties_by_lower_id(b: Beam)
    requires
        b.wf(),
    ensures
        forall|i: int, j: int|
            0 <= i < j < b.spec_active().len() ==> (#[trigger] b.spec_active()[i]).weight.0 >= (
            #[trigger] b.spec_active()[j]).weight.0,
        forall|i: int, j: int|
            0 <= i < j < b.spec_active().len() && (#[trigger] b.spec_active()[i]).weight
                == (#[trigger] b.spec_active()[j]).weight ==> b.spec_active()[i].id
                < b.spec_active()[j].id,
{
}

} // verus!
