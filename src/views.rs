//! Incremental views: per-key aggregates with retractions, the base top-K,
//! and the top-K inside each scenario.
//!
//! A view entry is a `(value, key)` pair. Entries are ranked by value
//! descending, then by key ascending.

use crate::beam::{has_id, Beam, Overlay};
use crate::diffs::{lemma_missing_from_contains, missing_entries, missing_from};
use crate::prob::{clamp_i64, fits_i64, saturate_i64, Prob};
use crate::rank::append_all;
use crate::rank::{distinct_keys, is_ranked_split, sorted_by_rank, split_top, Ranked};
use vstd::prelude::*;

verus! {

impl Ranked for (i64, u64) {
    open spec fn outranks(self, other: (i64, u64)) -> bool {
        self.0 > other.0 || (self.0 == other.0 && self.1 < other.1)
    }

    open spec fn rank_key(self) -> u64 {
        self.1
    }

    fn precedes(&self, other: &(i64, u64)) -> (r: bool) {
        self.0 > other.0 || (self.0 == other.0 && self.1 < other.1)
    }

    proof fn lemma_strict_order(a: (i64, u64), b: (i64, u64), c: (i64, u64)) {
    }
}

/// Sizing of a top-K view.
#[derive(Debug, Clone, Copy, PartialEq, Eq, Structural)]
pub struct TopKConfig {
    pub k: usize,
}

impl Default for TopKConfig {
    fn default() -> (r: TopKConfig)
        ensures
            r.k == 10,
    {
        TopKConfig { k: 10 }
    }
}

/// The total of `key` in `m`: zero where `m` has no entry.
pub open spec fn total_of(m: Map<u64, i64>, key: u64) -> int {
    if m.contains_key(key) {
        m[key] as int
    } else {
        0
    }
}

/// No key of `m` holds a zero total: a key whose contributions cancel out
/// leaves the view.
pub open spec fn no_zero_totals(m: Map<u64, i64>) -> bool {
    forall|k: u64| #[trigger] m.contains_key(k) ==> m[k] != 0
}

/// `m` after the contribution `value` with multiplicity `diff` on `key`.
pub open spec fn applied(m: Map<u64, i64>, key: u64, value: i64, diff: i64) -> Map<u64, i64> {
    let t = total_of(m, key) + value * diff;
    if t == 0 {
        m.remove(key)
    } else {
        m.insert(key, t as i64)
    }
}

/// `top` is the top-`k` of the totals `m`: its entries are entries of `m`,
/// in rank order, and any entry of `m` left out ranks below all of them in a
/// full view.
pub open spec fn is_top_k(top: Seq<(i64, u64)>, m: Map<u64, i64>, k: nat) -> bool {
    &&& sorted_by_rank(top)
    &&& top.len() <= k
    &&& forall|i: int|
        0 <= i < top.len() ==> m.contains_key((#[trigger] top[i]).1) && m[top[i].1] == top[i].0
    &&& forall|key: u64|
        #[trigger] m.contains_key(key) && !top.contains((m[key], key)) ==> top.len() == k && forall|
            i: int,
        |
            0 <= i < top.len() ==> (#[trigger] top[i]).outranks((m[key], key))
}

/// The totals seen from inside a scenario whose overlay adds `delta` to
/// `key`: the key takes part even where the base has no entry for it. The
/// sum saturates at the bounds of `i64`.
pub open spec fn with_overlay(m: Map<u64, i64>, key: u64, delta: i64) -> Map<u64, i64> {
    m.insert(key, clamp_i64(total_of(m, key) + delta))
}

/// The entries `(m[k], k)` of `m` as a sequence without repeated keys.
pub open spec fn lists(entries: Seq<(i64, u64)>, m: Map<u64, i64>) -> bool {
    &&& distinct_keys(entries)
    &&& forall|i: int|
        0 <= i < entries.len() ==> m.contains_key((#[trigger] entries[i]).1) && m[entries[i].1]
            == entries[i].0
    &&& forall|k: u64| #[trigger] m.contains_key(k) ==> entries.contains((m[k], k))
}

/// `m` after the contributions of `batch` in order, each applied when the
/// new total fits in `i64` and skipped otherwise.
pub open spec fn batch_applied(m: Map<u64, i64>, batch: Seq<(u64, i64, i64)>) -> Map<u64, i64>
    decreases batch.len(),
{
    if batch.len() == 0 {
        m
    } else {
        let before = batch_applied(m, batch.drop_last());
        let (key, value, diff) = batch.last();
        if fits_i64(total_of(before, key) + value * diff) {
            applied(before, key, value, diff)
        } else {
            before
        }
    }
}

/// A contribution followed by its exact retraction leaves the totals, and
/// so every view computed from them, as they were.
pub proof fn lemma_retraction_cancels(m: Map<u64, i64>, key: u64, value: i64, diff: i64)
    requires
        no_zero_totals(m),
        diff > i64::MIN,
        fits_i64(total_of(m, key) + value * diff),
    ensures
        fits_i64(total_of(applied(m, key, value, diff), key) + value * (-diff)),
        applied(applied(m, key, value, diff), key, value, (-diff) as i64) == m,
{
    let t = total_of(m, key);
    let m1 = applied(m, key, value, diff);
    assert(value * (-diff) == -(value * diff)) by (nonlinear_arith);
    assert(total_of(m1, key) == t + value * diff);
    let m2 = applied(m1, key, value, (-diff) as i64);
    if t == 0 {
        assert(!m.contains_key(key));
        assert(m2 =~= m);
    } else {
        assert(m2 =~= m);
    }
}

/// An epoch without contributions leaves the totals, and so every view
/// computed from them, as they were.
pub proof fn lemma_empty_epoch_changes_nothing(m: Map<u64, i64>, batch: Seq<(u64, i64, i64)>)
    requires
        batch.len() == 0,
    ensures
        batch_applied(m, batch) == m,
{
}

/// The top-`k` is a function of the totals: two views of equal totals
/// agree.
pub proof fn lemma_top_k_unique(a: Seq<(i64, u64)>, b: Seq<(i64, u64)>, m: Map<u64, i64>, k: nat)
    requires
        is_top_k(a, m, k),
        is_top_k(b, m, k),
    ensures
        a == b,
    decreases a.len() + b.len(),
{
    if a.len() > 0 && b.len() > 0 {
        let x = a[0];
        let y = b[0];
        if x != y {
            // the better of the two heads would have to be in the other view
            if x.outranks(y) {
                assert(m.contains_key(x.1) && m[x.1] == x.0);
                if b.contains((m[x.1], x.1)) {
                    let j = choose|j: int| 0 <= j < b.len() && b[j] == (m[x.1], x.1);
                    if j > 0 {
                        assert(b[0].outranks(b[j]));
                    }
                } else {
                    assert(b[0].outranks((m[x.1], x.1)));
                }
            } else {
                assert(y.1 != x.1 || y.0 != x.0);
                assert(m.contains_key(y.1) && m[y.1] == y.0);
                if x.1 == y.1 {
                    assert(x == y);
                }
                assert(y.outranks(x));
                if a.contains((m[y.1], y.1)) {
                    let j = choose|j: int| 0 <= j < a.len() && a[j] == (m[y.1], y.1);
                    if j > 0 {
                        assert(a[0].outranks(a[j]));
                    }
                } else {
                    assert(a[0].outranks((m[y.1], y.1)));
                }
            }
        }
        assert(x == y);
        let m1 = m.remove(x.1);
        let a1 = a.drop_first();
        let b1 = b.drop_first();
        lemma_top_k_tail(a, m, k);
        lemma_top_k_tail(b, m, k);
        lemma_top_k_unique(a1, b1, m1, (k - 1) as nat);
        assert(a =~= seq![x] + a1);
        assert(b =~= seq![y] + b1);
    } else if a.len() > 0 {
        let x = a[0];
        assert(m.contains_key(x.1));
        assert(!b.contains((m[x.1], x.1)));
        assert(b.len() == k);
    } else if b.len() > 0 {
        let y = b[0];
        assert(m.contains_key(y.1));
        assert(!a.contains((m[y.1], y.1)));
        assert(a.len() == k);
    } else {
        assert(a =~= b);
    }
}

proof fn lemma_top_k_tail(a: Seq<(i64, u64)>, m: Map<u64, i64>, k: nat)
    requires
        is_top_k(a, m, k),
        a.len() > 0,
    ensures
        is_top_k(a.drop_first(), m.remove(a[0].1), (k - 1) as nat),
{
    let x = a[0];
    let a1 = a.drop_first();
    let m1 = m.remove(x.1);
    assert forall|i: int| 0 <= i < a1.len() implies m1.contains_key((#[trigger] a1[i]).1) && m1[a1[i].1]
        == a1[i].0 by {
        assert(a1[i] == a[i + 1]);
        assert(a[0].outranks(a[i + 1]));
    }
    assert forall|key: u64| #[trigger] m1.contains_key(key) && !a1.contains((m1[key], key)) implies a1.len()
        == (k - 1) as nat && forall|i: int| 0 <= i < a1.len() ==> (#[trigger] a1[i]).outranks(
        (m1[key], key),
    ) by {
        if a.contains((m[key], key)) {
            let j = choose|j: int| 0 <= j < a.len() && a[j] == (m[key], key);
            assert(j != 0);
            assert(a1[j - 1] == a[j]);
        }
        assert forall|i: int| 0 <= i < a1.len() implies (#[trigger] a1[i]).outranks((m1[key], key)) by {
            assert(a1[i] == a[i + 1]);
        }
    }
}

/// Per-key running totals over a stream of contributions with
/// multiplicities; retractions are contributions with a negative
/// multiplicity.
pub struct Aggregates {
    entries: Vec<(i64, u64)>,
    totals: Ghost<Map<u64, i64>>,
}

impl Aggregates {
    /// The current totals; a key with total zero has no entry.
    pub closed spec fn spec_totals(&self) -> Map<u64, i64> {
        self.totals@
    }

    pub closed spec fn wf(&self) -> bool {
        &&& lists(self.entries@, self.totals@)
        &&& no_zero_totals(self.totals@)
    }

    pub fn new() -> (r: Aggregates)
        ensures
            r.wf(),
            r.spec_totals() == Map::<u64, i64>::empty(),
    {
        Aggregates { entries: Vec::new(), totals: Ghost(Map::empty()) }
    }

    /// The key's totals never hold zero.
    pub proof fn lemma_no_zero_totals(&self)
        requires
            self.wf(),
        ensures
            no_zero_totals(self.spec_totals()),
    {
    }

    fn find(&self, key: u64) -> (r: Option<usize>)
        requires
            self.wf(),
        ensures
            match r {
                Some(i) => i < self.entries@.len() && self.entries@[i as int].1 == key,
                None => !self.totals@.contains_key(key),
            },
    {
        let mut i: usize = 0;
        while i < self.entries.len()
            invariant
                i <= self.entries@.len(),
                forall|j: int| 0 <= j < i ==> (#[trigger] self.entries@[j]).1 != key,
            decreases self.entries@.len() - i,
        {
            if self.entries[i].1 == key {
                return Some(i);
            }
            i = i + 1;
        }
        proof {
            if self.totals@.contains_key(key) {
                assert(self.entries@.contains((self.totals@[key], key)));
                let j = choose|j: int|
                    0 <= j < self.entries@.len() && self.entries@[j] == (self.totals@[key], key);
                assert(self.entries@[j].1 == key);
            }
        }
        None
    }

    /// The total of `key`.
    pub fn total(&self, key: u64) -> (r: i64)
        requires
            self.wf(),
        ensures
            r == total_of(self.spec_totals(), key),
    {
        match self.find(key) {
            Some(i) => self.entries[i].0,
            None => 0,
        }
    }

    /// Adds `value` with multiplicity `diff` to `key`'s total. Refused, with
    /// nothing changed, when the new total would leave the range of `i64`.
    pub fn apply(&mut self, key: u64, value: i64, diff: i64) -> (ok: bool)
        requires
            old(self).wf(),
        ensures
            final(self).wf(),
            ok == fits_i64(total_of(old(self).spec_totals(), key) + value * diff),
            ok ==> final(self).spec_totals() == applied(old(self).spec_totals(), key, value, diff),
            !ok ==> final(self).spec_totals() == old(self).spec_totals(),
    {
        let found = self.find(key);
        let cur: i64 = match found {
            Some(i) => self.entries[i].0,
            None => 0,
        };
        proof {
            let v = value as int;
            let d = diff as int;
            assert(-0x4000_0000_0000_0000_0000_0000_0000_0000 <= v * d <= 0x4000_0000_0000_0000_0000_0000_0000_0000)
                by (nonlinear_arith)
                requires
                    -0x8000_0000_0000_0000 <= v <= 0x7fff_ffff_ffff_ffff,
                    -0x8000_0000_0000_0000 <= d <= 0x7fff_ffff_ffff_ffff,
            ;
            if let Some(i) = found {
                assert(self.totals@[key] == cur);
            }
        }
        let next: i128 = (cur as i128) + (value as i128) * (diff as i128);
        if next < i64::MIN as i128 || next > i64::MAX as i128 {
            return false;
        }
        let nv = next as i64;
        let ghost m0 = self.totals@;
        let ghost e0 = self.entries@;
        match found {
            Some(i) => {
                if nv == 0 {
                    self.entries.remove(i);
                    self.totals = Ghost(m0.remove(key));
                    proof {
                        let e = self.entries@;
                        assert forall|a: int, b: int|
                            0 <= a < e.len() && 0 <= b < e.len() && a != b implies (
                        #[trigger] e[a]).rank_key() != (#[trigger] e[b]).rank_key() by {
                            let a0 = if a < i { a } else { a + 1 };
                            let b0 = if b < i { b } else { b + 1 };
                            assert(e[a] == e0[a0] && e[b] == e0[b0]);
                        }
                        assert forall|j: int| 0 <= j < e.len() implies self.totals@.contains_key(
                            (#[trigger] e[j]).1,
                        ) && self.totals@[e[j].1] == e[j].0 by {
                            let j0 = if j < i { j } else { j + 1 };
                            assert(e[j] == e0[j0]);
                            assert(e0[j0].rank_key() != e0[i as int].rank_key());
                        }
                        assert forall|k: u64| #[trigger] self.totals@.contains_key(k) implies e.contains(
                            (self.totals@[k], k),
                        ) by {
                            assert(e0.contains((m0[k], k)));
                            let j0 = choose|j0: int| 0 <= j0 < e0.len() && e0[j0] == (m0[k], k);
                            if j0 < i {
                                assert(e[j0] == e0[j0]);
                            } else {
                                assert(j0 != i);
                                assert(e[j0 - 1] == e0[j0]);
                            }
                        }
                    }
                } else {
                    self.entries[i] = (nv, key);
                    self.totals = Ghost(m0.insert(key, nv));
                    proof {
                        let e = self.entries@;
                        assert forall|a: int, b: int|
                            0 <= a < e.len() && 0 <= b < e.len() && a != b implies (
                        #[trigger] e[a]).rank_key() != (#[trigger] e[b]).rank_key() by {
                            assert(e[a].1 == e0[a].1 && e[b].1 == e0[b].1);
                        }
                        assert forall|j: int| 0 <= j < e.len() implies self.totals@.contains_key(
                            (#[trigger] e[j]).1,
                        ) && self.totals@[e[j].1] == e[j].0 by {
                            if j != i {
                                assert(e[j] == e0[j]);
                                assert(e0[j].rank_key() != e0[i as int].rank_key());
                            }
                        }
                        assert forall|k: u64| #[trigger] self.totals@.contains_key(k) implies e.contains(
                            (self.totals@[k], k),
                        ) by {
                            if k == key {
                                assert(e[i as int] == (nv, key));
                            } else {
                                assert(e0.contains((m0[k], k)));
                                let j0 = choose|j0: int| 0 <= j0 < e0.len() && e0[j0] == (m0[k], k);
                                assert(e[j0] == e0[j0]);
                            }
                        }
                    }
                }
            },
            None => {
                if nv != 0 {
                    self.entries.push((nv, key));
                    self.totals = Ghost(m0.insert(key, nv));
                    proof {
                        let e = self.entries@;
                        let n = e0.len() as int;
                        assert forall|a: int, b: int|
                            0 <= a < e.len() && 0 <= b < e.len() && a != b implies (
                        #[trigger] e[a]).rank_key() != (#[trigger] e[b]).rank_key() by {
                            if a < n && b < n {
                                assert(e[a] == e0[a] && e[b] == e0[b]);
                            } else if a < n {
                                assert(e[a] == e0[a]);
                            } else {
                                assert(e[b] == e0[b]);
                            }
                        }
                        assert forall|j: int| 0 <= j < e.len() implies self.totals@.contains_key(
                            (#[trigger] e[j]).1,
                        ) && self.totals@[e[j].1] == e[j].0 by {
                            if j < n {
                                assert(e[j] == e0[j]);
                            }
                        }
                        assert forall|k: u64| #[trigger] self.totals@.contains_key(k) implies e.contains(
                            (self.totals@[k], k),
                        ) by {
                            if k == key {
                                assert(e[n] == (nv, key));
                            } else {
                                assert(e0.contains((m0[k], k)));
                                let j0 = choose|j0: int| 0 <= j0 < e0.len() && e0[j0] == (m0[k], k);
                                assert(e[j0] == e0[j0]);
                            }
                        }
                    }
                } else {
                    assert(m0.remove(key) =~= m0);
                }
            },
        }
        true
    }

    /// Applies one epoch's contributions `(key, value, diff)` in order; a
    /// contribution that would take a total out of the range of `i64` is
    /// skipped. Returns how many were skipped.
    pub fn apply_batch(&mut self, batch: &Vec<(u64, i64, i64)>) -> (skipped: usize)
        requires
            old(self).wf(),
        ensures
            final(self).wf(),
            final(self).spec_totals() == batch_applied(old(self).spec_totals(), batch@),
            skipped <= batch@.len(),
    {
        let mut skipped: usize = 0;
        let mut i: usize = 0;
        while i < batch.len()
            invariant
                i <= batch@.len(),
                skipped <= i,
                self.wf(),
                self.spec_totals() == batch_applied(old(self).spec_totals(), batch@.take(i as int)),
            decreases batch@.len() - i,
        {
            let (key, value, diff) = batch[i];
            let ghost before = self.spec_totals();
            let ok = self.apply(key, value, diff);
            if !ok {
                skipped = skipped + 1;
            }
            proof {
                let t = batch@.take(i + 1);
                assert(t.drop_last() =~= batch@.take(i as int));
                assert(t.last() == batch@[i as int]);
            }
            i = i + 1;
        }
        assert(batch@.take(i as int) =~= batch@);
        skipped
    }

    /// A copy of the current totals, to compare a later state against.
    pub fn snapshot(&self) -> (r: Aggregates)
        requires
            self.wf(),
        ensures
            r.wf(),
            r.spec_totals() == self.spec_totals(),
    {
        let mut entries: Vec<(i64, u64)> = Vec::new();
        append_all(&mut entries, &self.entries);
        assert(entries@ =~= self.entries@);
        Aggregates { entries, totals: Ghost(self.totals@) }
    }

    /// The top-`k` entries of the current totals.
    pub fn top_k(&self, k: usize) -> (r: Vec<(i64, u64)>)
        requires
            self.wf(),
        ensures
            is_top_k(r@, self.spec_totals(), k as nat),
    {
        let (top, rest) = split_top(&self.entries, k);
        proof {
            lemma_split_is_top_k(self.entries@, self.totals@, top@, rest@, k as nat);
        }
        top
    }
}

proof fn lemma_split_is_top_k(
    entries: Seq<(i64, u64)>,
    m: Map<u64, i64>,
    top: Seq<(i64, u64)>,
    rest: Seq<(i64, u64)>,
    k: nat,
)
    requires
        lists(entries, m),
        is_ranked_split(entries, top, rest, k),
    ensures
        is_top_k(top, m, k),
{
    assert forall|i: int| 0 <= i < top.len() implies m.contains_key((#[trigger] top[i]).1) && m[top[i].1]
        == top[i].0 by {
        assert(top.contains(top[i]));
        assert(entries.contains(top[i]));
        let j = choose|j: int| 0 <= j < entries.len() && entries[j] == top[i];
    }
    assert forall|key: u64| #[trigger] m.contains_key(key) && !top.contains((m[key], key)) implies top.len()
        == k && forall|i: int| 0 <= i < top.len() ==> (#[trigger] top[i]).outranks((m[key], key)) by {
        assert(entries.contains((m[key], key)));
        assert(rest.contains((m[key], key)));
        let j = choose|j: int| 0 <= j < rest.len() && rest[j] == (m[key], key);
        assert forall|i: int| 0 <= i < top.len() implies (#[trigger] top[i]).outranks((m[key], key)) by {
            assert(top[i].outranks(rest[j]));
        }
    }
}

/// The top-`k` entries inside a scenario whose overlay adds `delta` to
/// `key`, over the base totals `base`.
pub fn scenario_top_k(base: &Aggregates, key: u64, delta: i64, k: usize) -> (r: Vec<(i64, u64)>)
    requires
        base.wf(),
    ensures
        is_top_k(r@, with_overlay(base.spec_totals(), key, delta), k as nat),
{
    let ghost m = base.spec_totals();
    let ghost sm = with_overlay(m, key, delta);
    let b = base.total(key);
    let v = saturate_i64((b as i128) + (delta as i128));
    let mut entries: Vec<(i64, u64)> = Vec::new();
    let mut i: usize = 0;
    let mut seen = false;
    while i < base.entries.len()
        invariant
            i <= base.entries@.len(),
            base.wf(),
            m == base.spec_totals(),
            sm == with_overlay(m, key, delta),
            v == sm[key],
            entries@.len() == i,
            seen <==> exists|j: int| 0 <= j < i && (#[trigger] base.entries@[j]).1 == key,
            forall|j: int|
                0 <= j < i ==> #[trigger] entries@[j] == (if base.entries@[j].1 == key {
                    (v, key)
                } else {
                    base.entries@[j]
                }),
        decreases base.entries@.len() - i,
    {
        let e = base.entries[i];
        if e.1 == key {
            entries.push((v, key));
            seen = true;
        } else {
            entries.push(e);
        }
        i = i + 1;
    }
    let ghost listed = entries@;
    if !seen {
        entries.push((v, key));
    }
    proof {
        let be = base.entries@;
        let e = entries@;
        assert forall|j: int| 0 <= j < be.len() implies (#[trigger] e[j]).1 == be[j].1 by {
            assert(e[j] == listed[j]);
        }
        if !seen {
            assert forall|j: int| 0 <= j < be.len() implies (#[trigger] be[j]).1 != key by {
                assert(!(0 <= j < i && be[j].1 == key));
            }
        }
        assert forall|a: int, c: int|
            0 <= a < e.len() && 0 <= c < e.len() && a != c implies (#[trigger] e[a]).rank_key() != (
        #[trigger] e[c]).rank_key() by {
            if a < be.len() && c < be.len() {
                assert(be[a].rank_key() != be[c].rank_key());
            } else if a < be.len() {
                assert(be[a].1 != key);
            } else {
                assert(be[c].1 != key);
            }
        }
        assert forall|j: int| 0 <= j < e.len() implies sm.contains_key((#[trigger] e[j]).1) && sm[e[j].1]
            == e[j].0 by {
            if j < be.len() {
                if be[j].1 != key {
                    assert(m.contains_key(be[j].1));
                }
            }
        }
        assert forall|q: u64| #[trigger] sm.contains_key(q) implies e.contains((sm[q], q)) by {
            if q == key {
                if seen {
                    let j = choose|j: int| 0 <= j < i && (#[trigger] be[j]).1 == key;
                    assert(e[j] == (v, key));
                } else {
                    assert(e[be.len() as int] == (v, key));
                }
            } else {
                assert(m.contains_key(q));
                assert(be.contains((m[q], q)));
                let j = choose|j: int| 0 <= j < be.len() && be[j] == (m[q], q);
                assert(e[j] == be[j]);
            }
        }
    }
    let (top, rest) = split_top(&entries, k);
    proof {
        lemma_split_is_top_k(entries@, sm, top@, rest@, k as nat);
    }
    top
}

/// Inside a scenario whose overlay adds `delta` to `key`, the totals are the
/// base totals with that key's total moved by `delta` (the key taking part
/// even where the base has no entry), while the sum fits in `i64`; and the
/// top-K over them is the only sequence that `scenario_top_k` may return.
pub proof fn lemma_scenario_totals(r: Seq<(i64, u64)>, m: Map<u64, i64>, key: u64, delta: i64, k: nat)
    requires
        is_top_k(r, with_overlay(m, key, delta), k),
        fits_i64(total_of(m, key) + delta),
    ensures
        with_overlay(m, key, delta).contains_key(key),
        with_overlay(m, key, delta)[key] == total_of(m, key) + delta,
        forall|q: u64|
            q != key ==> (#[trigger] with_overlay(m, key, delta).contains_key(q) <==> m.contains_key(q)),
        forall|q: u64|
            q != key && m.contains_key(q) ==> #[trigger] with_overlay(m, key, delta)[q] == m[q],
        forall|r2: Seq<(i64, u64)>| #[trigger] is_top_k(r2, with_overlay(m, key, delta), k) ==> r2 == r,
{
    assert forall|r2: Seq<(i64, u64)>| #[trigger] is_top_k(r2, with_overlay(m, key, delta), k) implies r2
        == r by {
        lemma_top_k_unique(r2, r, with_overlay(m, key, delta), k);
    }
}

/// `m` holds the total `x.0` for the key `x.1`.
pub open spec fn holds_total(m: Map<u64, i64>, x: (i64, u64)) -> bool {
    m.contains_key(x.1) && m[x.1] == x.0
}

proof fn lemma_lists_contains(entries: Seq<(i64, u64)>, m: Map<u64, i64>)
    requires
        lists(entries, m),
    ensures
        forall|x: (i64, u64)| #[trigger] entries.contains(x) <==> holds_total(m, x),
{
    assert forall|x: (i64, u64)| #[trigger] entries.contains(x) <==> holds_total(m, x) by {
        if entries.contains(x) {
            let i = choose|i: int| 0 <= i < entries.len() && entries[i] == x;
        }
        if holds_total(m, x) {
            assert(entries.contains((m[x.1], x.1)));
        }
    }
}

/// The change of the per-key totals from `previous` to `current`, as
/// `(total, key)` entries: a key whose total changed is retracted with its
/// old total and inserted with its new one. Returns the insertions, then
/// the retractions.
pub fn aggregate_changes(previous: &Aggregates, current: &Aggregates) -> (r: (
    Vec<(i64, u64)>,
    Vec<(i64, u64)>,
))
    requires
        previous.wf(),
        current.wf(),
    ensures
        forall|x: (i64, u64)|
            #[trigger] r.0@.contains(x) <==> (holds_total(current.spec_totals(), x) && !holds_total(
                previous.spec_totals(),
                x,
            )),
        forall|x: (i64, u64)|
            #[trigger] r.1@.contains(x) <==> (holds_total(previous.spec_totals(), x) && !holds_total(
                current.spec_totals(),
                x,
            )),
{
    let inserted = missing_entries(&current.entries, &previous.entries);
    let retracted = missing_entries(&previous.entries, &current.entries);
    proof {
        lemma_lists_contains(current.entries@, current.totals@);
        lemma_lists_contains(previous.entries@, previous.totals@);
        lemma_missing_from_contains(current.entries@, previous.entries@);
        lemma_missing_from_contains(previous.entries@, current.entries@);
    }
    (inserted, retracted)
}

/// The top-K inside one active scenario.
pub struct ScenarioView {
    pub scenario_id: u64,
    pub weight: Prob,
    pub top: Vec<(i64, u64)>,
}

/// The top-K of every active scenario of `beam`, best scenario first: each
/// is the top-`k` of the base totals with that scenario's overlay applied,
/// as the registry's overlay map holds it. `table_views` computes the same
/// from an overlay diff table instead.
pub fn scenario_views(base: &Aggregates, beam: &Beam, k: usize) -> (r: Vec<ScenarioView>)
    requires
        base.wf(),
        beam.wf(),
    ensures
        r@.len() == beam.spec_active().len(),
        forall|i: int|
            0 <= i < r@.len() ==> {
                let m = beam.spec_active()[i];
                let ov = beam.spec_overlays()[m.id];
                &&& (#[trigger] r@[i]).scenario_id == m.id
                &&& r@[i].weight == m.weight
                &&& is_top_k(r@[i].top@, with_overlay(base.spec_totals(), ov.key, ov.delta), k as nat)
            },
{
    let active = beam.active();
    let mut out: Vec<ScenarioView> = Vec::new();
    let mut i: usize = 0;
    while i < active.len()
        invariant
            i <= active@.len(),
            active@ == beam.spec_active(),
            base.wf(),
            beam.wf(),
            out@.len() == i,
            forall|j: int|
                0 <= j < i ==> {
                    let m = beam.spec_active()[j];
                    let ov = beam.spec_overlays()[m.id];
                    &&& (#[trigger] out@[j]).scenario_id == m.id
                    &&& out@[j].weight == m.weight
                    &&& is_top_k(out@[j].top@, with_overlay(base.spec_totals(), ov.key, ov.delta), k as nat)
                },
        decreases active@.len() - i,
    {
        let m = active[i];
        proof {
            assert(has_id(beam.spec_active(), m.id));
            assert(beam.spec_overlays().contains_key(m.id));
        }
        let ov = match beam.overlay(m.id) {
            Some(o) => o,
            None => Overlay { scenario_id: m.id, key: 0, delta: 0 },
        };
        let top = scenario_top_k(base, ov.key, ov.delta, k);
        out.push(ScenarioView { scenario_id: m.id, weight: m.weight, top });
        i = i + 1;
    }
    out
}

} // verus!
