//! Changes between two snapshots of a view, as insertions and retractions.

use vstd::prelude::*;

verus! {

/// The items of `a` that `b` lacks, in the order of `a`.
pub open spec fn missing_from<T>(a: Seq<T>, b: Seq<T>) -> Seq<T>
    decreases a.len(),
{
    if a.len() == 0 {
        Seq::empty()
    } else {
        let before = missing_from(a.drop_last(), b);
        if b.contains(a.last()) {
            before
        } else {
            before.push(a.last())
        }
    }
}

/// An item is missing from `b` exactly when `a` holds it and `b` does not.
pub proof fn lemma_missing_from_contains<T>(a: Seq<T>, b: Seq<T>)
    ensures
        forall|x: T| #[trigger] missing_from(a, b).contains(x) <==> (a.contains(x) && !b.contains(x)),
    decreases a.len(),
{
    if a.len() > 0 {
        let a0 = a.drop_last();
        lemma_missing_from_contains(a0, b);
        let before = missing_from(a0, b);
        assert forall|x: T| #[trigger] missing_from(a, b).contains(x) <==> (a.contains(x) && !b.contains(
            x,
        )) by {
            if a.contains(x) {
                let i = choose|i: int| 0 <= i < a.len() && a[i] == x;
                if i < a.len() - 1 {
                    assert(a0[i] == x);
                    assert(a0.contains(x));
                }
            }
            if a0.contains(x) {
                let i = choose|i: int| 0 <= i < a0.len() && a0[i] == x;
                assert(a[i] == x);
            }
            if !b.contains(a.last()) {
                let r = before.push(a.last());
                assert(r[before.len() as int] == a.last());
                if before.contains(x) {
                    let i = choose|i: int| 0 <= i < before.len() && before[i] == x;
                    assert(r[i] == x);
                }
                if r.contains(x) {
                    let i = choose|i: int| 0 <= i < r.len() && r[i] == x;
                    if i < before.len() {
                        assert(before[i] == x);
                    }
                }
            }
        }
    }
}

fn holds_entry(v: &Vec<(i64, u64)>, x: (i64, u64)) -> (r: bool)
    ensures
        r == v@.contains(x),
{
    let mut i: usize = 0;
    while i < v.len()
        invariant
            i <= v@.len(),
            forall|j: int| 0 <= j < i ==> v@[j] != x,
        decreases v@.len() - i,
    {
        if v[i].0 == x.0 && v[i].1 == x.1 {
            return true;
        }
        i = i + 1;
    }
    false
}

/// The entries of `a` that `b` lacks, in the order of `a`.
pub fn missing_entries(a: &Vec<(i64, u64)>, b: &Vec<(i64, u64)>) -> (r: Vec<(i64, u64)>)
    ensures
        r@ == missing_from(a@, b@),
{
    let mut out: Vec<(i64, u64)> = Vec::new();
    let mut i: usize = 0;
    while i < a.len()
        invariant
            i <= a@.len(),
            out@ == missing_from(a@.take(i as int), b@),
        decreases a@.len() - i,
    {
        if !holds_entry(b, a[i]) {
            out.push(a[i]);
        }
        proof {
            let t = a@.take(i + 1);
            assert(t.drop_last() =~= a@.take(i as int));
            assert(t.last() == a@[i as int]);
        }
        i = i + 1;
    }
    assert(a@.take(i as int) =~= a@);
    out
}

/// The change of a top-K view from one epoch to the next: the entries that
/// entered it, then the ones that left it. An entry whose value changed
/// leaves with its old value and enters with its new one.
pub fn top_k_changes(previous: &Vec<(i64, u64)>, current: &Vec<(i64, u64)>) -> (r: (
    Vec<(i64, u64)>,
    Vec<(i64, u64)>,
))
    ensures
        r.0@ == missing_from(current@, previous@),
        r.1@ == missing_from(previous@, current@),
{
    (missing_entries(current, previous), missing_entries(previous, current))
}

} // verus!
