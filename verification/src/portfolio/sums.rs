//! Sums of integer sequences and the facts about them that the engine uses.

use vstd::prelude::*;

verus! {

/// The sum of all elements of `s`.
pub open spec fn total(s: Seq<int>) -> int
    decreases s.len(),
{
    if s.len() == 0 {
        0
    } else {
        total(s.drop_last()) + s.last()
    }
}

/// The sum of a prefix grows by the next element.
pub proof fn lemma_total_take(s: Seq<int>, k: int)
    requires
        0 <= k < s.len(),
    ensures
        total(s.take(k + 1)) == total(s.take(k)) + s[k],
{
    assert(s.take(k + 1).drop_last() =~= s.take(k));
}

/// Replacing one element changes the sum by the difference.
pub proof fn lemma_total_update(s: Seq<int>, i: int, v: int)
    requires
        0 <= i < s.len(),
    ensures
        total(s.update(i, v)) == total(s) - s[i] + v,
    decreases s.len(),
{
    if i == s.len() - 1 {
        assert(s.update(i, v).drop_last() =~= s.drop_last());
    } else {
        lemma_total_update(s.drop_last(), i, v);
        assert(s.update(i, v).drop_last() =~= s.drop_last().update(i, v));
    }
}

/// Sequences that agree element by element have the same sum.
pub proof fn lemma_total_equal(a: Seq<int>, b: Seq<int>)
    requires
        a.len() == b.len(),
        forall|i: int| 0 <= i < a.len() ==> a[i] == b[i],
    ensures
        total(a) == total(b),
{
    assert(a =~= b);
}

/// An element-wise smaller sequence has the smaller sum.
pub proof fn lemma_total_le(a: Seq<int>, b: Seq<int>)
    requires
        a.len() == b.len(),
        forall|i: int| 0 <= i < a.len() ==> a[i] <= b[i],
    ensures
        total(a) <= total(b),
    decreases a.len(),
{
    if a.len() > 0 {
        lemma_total_le(a.drop_last(), b.drop_last());
    }
}

/// With no negative element, every prefix sum and every element is at most
/// the whole sum, and no sum is negative.
pub proof fn lemma_total_nonnegative(s: Seq<int>, k: int)
    requires
        forall|i: int| 0 <= i < s.len() ==> s[i] >= 0,
        0 <= k <= s.len(),
    ensures
        0 <= total(s.take(k)) <= total(s),
        k < s.len() ==> total(s.take(k)) + s[k] <= total(s),
    decreases s.len() - k,
{
    if k == s.len() {
        assert(s.take(k) =~= s);
        lemma_total_floor(s);
    } else {
        lemma_total_take(s, k);
        lemma_total_nonnegative(s, k + 1);
        lemma_total_floor(s.take(k));
    }
}

/// With no negative element the sum is not negative.
pub proof fn lemma_total_floor(s: Seq<int>)
    requires
        forall|i: int| 0 <= i < s.len() ==> s[i] >= 0,
    ensures
        total(s) >= 0,
    decreases s.len(),
{
    if s.len() > 0 {
        lemma_total_floor(s.drop_last());
    }
}

} // verus!
