//! Small helpers on vectors.

use vstd::prelude::*;

verus! {

/// Appends `x` to `v`.
pub fn push_deep<T: DeepView>(v: &mut Vec<T>, x: T)
    ensures
        final(v).deep_view() == old(v).deep_view().push(x.deep_view()),
{
    let ghost before = v@;
    v.push(x);
    assert(v.deep_view() =~= Seq::new(before.len(), |i: int| before[i].deep_view()).push(
        x.deep_view(),
    ));
}

/// The entries of `v`, last first.
pub fn reversed<T>(v: Vec<T>) -> (r: Vec<T>)
    ensures
        r@.len() == v@.len(),
        forall|j: int| 0 <= j < v@.len() ==> r@[j] == v@[v@.len() - 1 - j],
{
    let ghost orig = v@;
    let mut v = v;
    let mut r: Vec<T> = Vec::new();
    while v.len() > 0
        invariant
            v@ == orig.take(v@.len() as int),
            v@.len() <= orig.len(),
            r@.len() == orig.len() - v@.len(),
            forall|j: int| 0 <= j < r@.len() ==> r@[j] == orig[orig.len() - 1 - j],
        decreases v@.len(),
    {
        let x = v.pop().unwrap();
        r.push(x);
        assert(v@ =~= orig.take(v@.len() as int));
    }
    r
}

/// Moves the items of `other` to the end of `v`.
pub fn append_deep<T: DeepView>(v: &mut Vec<T>, other: Vec<T>)
    ensures
        final(v).deep_view() == old(v).deep_view() + other.deep_view(),
{
    let ghost before = v.deep_view();
    let ghost all = other.deep_view();
    let n = other.len();
    let mut rest = reversed(other);
    let mut i: usize = 0;
    while i < n
        invariant
            i <= n,
            n == all.len(),
            all == other.deep_view(),
            rest@.len() == n - i,
            forall|j: int| 0 <= j < rest@.len() ==> rest@[j] == other@[n - 1 - j],
            v.deep_view() == before + all.take(i as int),
        decreases n - i,
    {
        let x = rest.pop().unwrap();
        assert(x.deep_view() == all[i as int]);
        push_deep(v, x);
        assert(all.take(i + 1) =~= all.take(i as int).push(all[i as int]));
        assert(v.deep_view() =~= before + all.take(i + 1));
        i = i + 1;
    }
    assert(all.take(n as int) =~= all);
}

} // verus!
