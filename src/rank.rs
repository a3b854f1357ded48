//! Strict rankings and the ranked split that both the beam and the top-K
//! views are built on.

use vstd::prelude::*;

verus! {

/// A type with a strict ranking that is total on items of distinct keys.
pub trait Ranked: Sized {
    /// `self` comes strictly before `other`.
    spec fn outranks(self, other: Self) -> bool;

    /// The identity that no two ranked items of one collection share.
    spec fn rank_key(self) -> u64;

    fn precedes(&self, other: &Self) -> (r: bool)
        ensures
            r == self.outranks(*other),
    ;

    proof fn lemma_strict_order(a: Self, b: Self, c: Self)
        ensures
            !a.outranks(a),
            a.outranks(b) && b.outranks(c) ==> a.outranks(c),
            a.rank_key() != b.rank_key() ==> a.outranks(b) || b.outranks(a),
    ;
}

/// Every item outranks every later item.
pub open spec fn sorted_by_rank<T: Ranked>(s: Seq<T>) -> bool {
    forall|i: int, j: int| 0 <= i < j < s.len() ==> (#[trigger] s[i]).outranks(#[trigger] s[j])
}

/// No two items share a key.
pub open spec fn distinct_keys<T: Ranked>(s: Seq<T>) -> bool {
    forall|i: int, j: int|
        0 <= i < s.len() && 0 <= j < s.len() && i != j ==> (#[trigger] s[i]).rank_key() != (
        #[trigger] s[j]).rank_key()
}

pub open spec fn min_nat(a: nat, b: nat) -> nat {
    if a < b {
        a
    } else {
        b
    }
}

/// `top` holds the `k` best items of `all` in rank order, `rest` the others in
/// rank order.
pub open spec fn is_ranked_split<T: Ranked>(all: Seq<T>, top: Seq<T>, rest: Seq<T>, k: nat) -> bool {
    &&& sorted_by_rank(top)
    &&& sorted_by_rank(rest)
    &&& top.len() == min_nat(k, all.len())
    &&& top.len() + rest.len() == all.len()
    &&& forall|x: T| all.contains(x) <==> (top.contains(x) || rest.contains(x))
    &&& forall|i: int, j: int|
        0 <= i < top.len() && 0 <= j < rest.len() ==> (#[trigger] top[i]).outranks(
            #[trigger] rest[j],
        )
}

/// In a collection of distinct keys an item is known by its key.
pub proof fn lemma_same_key_same_item<T: Ranked>(s: Seq<T>, x: T, y: T)
    requires
        distinct_keys(s),
        s.contains(x),
        s.contains(y),
        x.rank_key() == y.rank_key(),
    ensures
        x == y,
{
    let i = choose|i: int| 0 <= i < s.len() && s[i] == x;
    let j = choose|j: int| 0 <= j < s.len() && s[j] == y;
    if i != j {
        assert(s[i].rank_key() != s[j].rank_key());
    }
}

/// A sorted selection out of a collection of distinct keys has distinct keys.
pub proof fn lemma_sorted_subset_distinct<T: Ranked>(all: Seq<T>, sel: Seq<T>)
    requires
        distinct_keys(all),
        sorted_by_rank(sel),
        forall|x: T| sel.contains(x) ==> all.contains(x),
    ensures
        distinct_keys(sel),
{
    assert forall|i: int, j: int|
        0 <= i < sel.len() && 0 <= j < sel.len() && i != j implies (#[trigger] sel[i]).rank_key()
        != (#[trigger] sel[j]).rank_key() by {
        assert(sel.contains(sel[i]) && sel.contains(sel[j]));
        if sel[i].rank_key() == sel[j].rank_key() {
            lemma_same_key_same_item(all, sel[i], sel[j]);
            T::lemma_strict_order(sel[i], sel[i], sel[i]);
            if i < j {
                assert(sel[i].outranks(sel[j]));
            } else {
                assert(sel[j].outranks(sel[i]));
            }
        }
    }
}

/// Appends a copy of every item of `src` to `dst`.
pub fn append_all<T: Copy>(dst: &mut Vec<T>, src: &Vec<T>)
    ensures
        final(dst)@ == old(dst)@ + src@,
{
    let ghost start = dst@;
    let mut i: usize = 0;
    while i < src.len()
        invariant
            i <= src@.len(),
            dst@ == start + src@.take(i as int),
        decreases src@.len() - i,
    {
        dst.push(src[i]);
        i = i + 1;
        assert(dst@ =~= start + src@.take(i as int));
    }
    assert(src@.take(i as int) =~= src@);
}

/// The items of `items` in rank order.
pub fn rank_sort<T: Ranked + Copy>(items: &Vec<T>) -> (r: Vec<T>)
    requires
        distinct_keys(items@),
    ensures
        sorted_by_rank(r@),
        r@.len() == items@.len(),
        forall|x: T| r@.contains(x) <==> items@.contains(x),
{
    let mut out: Vec<T> = Vec::new();
    let mut i: usize = 0;
    while i < items.len()
        invariant
            i <= items@.len(),
            distinct_keys(items@),
            sorted_by_rank(out@),
            out@.len() == i,
            forall|x: T| out@.contains(x) <==> items@.take(i as int).contains(x),
        decreases items@.len() - i,
    {
        let e = items[i];
        let mut p: usize = 0;
        while p < out.len() && out[p].precedes(&e)
            invariant
                p <= out@.len(),
                forall|j: int| 0 <= j < p ==> (#[trigger] out@[j]).outranks(e),
            decreases out@.len() - p,
        {
            p = p + 1;
        }
        proof {
            // every item already placed has a key other than `e`'s
            assert forall|j: int| 0 <= j < out@.len() implies (#[trigger] out@[j]).rank_key()
                != e.rank_key() by {
                assert(out@.contains(out@[j]));
                assert(items@.take(i as int).contains(out@[j]));
                let k = choose|k: int| 0 <= k < i && items@.take(i as int)[k] == out@[j];
                assert(items@[k] == out@[j]);
            }
            if p < out@.len() {
                T::lemma_strict_order(e, out@[p as int], e);
                assert(e.outranks(out@[p as int]));
            }
        }
        let ghost old_out = out@;
        out.insert(p, e);
        proof {
            let s = out@;
            assert forall|a: int, b: int| 0 <= a < b < s.len() implies (#[trigger] s[a]).outranks(
                #[trigger] s[b],
            ) by {
                if b < p {
                    assert(s[a] == old_out[a] && s[b] == old_out[b]);
                } else if b == p {
                    assert(s[a] == old_out[a]);
                } else {
                    assert(s[b] == old_out[b - 1]);
                    if a < p {
                        assert(s[a] == old_out[a]);
                    } else if a == p {
                        if b - 1 > p {
                            T::lemma_strict_order(e, old_out[p as int], old_out[b - 1]);
                        }
                    } else {
                        assert(s[a] == old_out[a - 1]);
                    }
                }
            }
            assert(items@.take(i + 1) =~= items@.take(i as int).push(e));
            assert forall|x: T| s.contains(x) <==> items@.take(i + 1).contains(x) by {
                if s.contains(x) {
                    let k = choose|k: int| 0 <= k < s.len() && s[k] == x;
                    if k < p {
                        assert(old_out[k] == x);
                        assert(old_out.contains(x));
                    } else if k > p {
                        assert(old_out[k - 1] == x);
                        assert(old_out.contains(x));
                    }
                    assert(items@.take(i + 1)[i as int] == e);
                }
                let t = items@.take(i + 1);
                if t.contains(x) {
                    let k = choose|k: int| 0 <= k < t.len() && t[k] == x;
                    if k < i {
                        assert(items@.take(i as int)[k] == x);
                        assert(old_out.contains(x));
                        let m = choose|m: int| 0 <= m < old_out.len() && old_out[m] == x;
                        if m < p {
                            assert(s[m] == x);
                        } else {
                            assert(s[m + 1] == x);
                        }
                    } else {
                        assert(s[p as int] == x);
                    }
                }
            }
        }
        i = i + 1;
    }
    assert(items@.take(items@.len() as int) =~= items@);
    out
}

/// Splits `items` into its `k` best items and the others, each in rank order.
pub fn split_top<T: Ranked + Copy>(items: &Vec<T>, k: usize) -> (r: (Vec<T>, Vec<T>))
    requires
        distinct_keys(items@),
    ensures
        is_ranked_split(items@, r.0@, r.1@, k as nat),
{
    let mut top = rank_sort(items);
    let ghost sorted = top@;
    let at = if k < top.len() {
        k
    } else {
        top.len()
    };
    let rest = top.split_off(at);
    proof {
        assert(sorted =~= top@ + rest@);
        assert forall|x: T| sorted.contains(x) <==> (top@.contains(x) || rest@.contains(x)) by {
            if sorted.contains(x) {
                let j = choose|j: int| 0 <= j < sorted.len() && sorted[j] == x;
                if j < at {
                    assert(top@[j] == x);
                } else {
                    assert(rest@[j - at] == x);
                }
            }
            if top@.contains(x) {
                let j = choose|j: int| 0 <= j < top@.len() && top@[j] == x;
                assert(sorted[j] == x);
            }
            if rest@.contains(x) {
                let j = choose|j: int| 0 <= j < rest@.len() && rest@[j] == x;
                assert(sorted[j + at] == x);
            }
        }
        assert forall|i: int, j: int| 0 <= i < top@.len() && 0 <= j < rest@.len() implies (
        #[trigger] top@[i]).outranks(#[trigger] rest@[j]) by {
            assert(top@[i] == sorted[i] && rest@[j] == sorted[j + at]);
        }
        assert forall|i: int, j: int| 0 <= i < j < rest@.len() implies (
        #[trigger] rest@[i]).outranks(#[trigger] rest@[j]) by {
            assert(rest@[i] == sorted[i + at] && rest@[j] == sorted[j + at]);
        }
        assert forall|i: int, j: int| 0 <= i < j < top@.len() implies (
        #[trigger] top@[i]).outranks(#[trigger] top@[j]) by {
            assert(top@[i] == sorted[i] && top@[j] == sorted[j]);
        }
    }
    (top, rest)
}

} // verus!
