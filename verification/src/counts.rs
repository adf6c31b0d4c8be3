//! Summation over sequences, used to state the store's aggregate invariant:
//! every daily-statistics value equals a sum over the event log.

use vstd::prelude::*;

verus! {

/// The sum of `f` over the elements of `s`.
pub open spec fn sum_by<T>(s: Seq<T>, f: spec_fn(T) -> int) -> int
    decreases s.len(),
{
    if s.len() == 0 {
        0
    } else {
        sum_by(s.drop_last(), f) + f(s.last())
    }
}

pub proof fn lemma_sum_by_push<T>(s: Seq<T>, f: spec_fn(T) -> int, x: T)
    ensures
        sum_by(s.push(x), f) == sum_by(s, f) + f(x),
{
    assert(s.push(x).drop_last() =~= s);
    assert(s.push(x).last() == x);
}

pub proof fn lemma_sum_by_update<T>(s: Seq<T>, f: spec_fn(T) -> int, i: int, x: T)
    requires
        0 <= i < s.len(),
    ensures
        sum_by(s.update(i, x), f) == sum_by(s, f) - f(s[i]) + f(x),
    decreases s.len(),
{
    if i == s.len() - 1 {
        assert(s.update(i, x).drop_last() =~= s.drop_last());
        assert(s.update(i, x).last() == x);
    } else {
        assert(s.update(i, x).drop_last() =~= s.drop_last().update(i, x));
        assert(s.update(i, x).last() == s.last());
        lemma_sum_by_update(s.drop_last(), f, i, x);
    }
}

/// Two sequences of equal length whose elements `f` cannot tell apart have
/// equal sums.
pub proof fn lemma_sum_by_pointwise<T>(s1: Seq<T>, s2: Seq<T>, f: spec_fn(T) -> int)
    requires
        s1.len() == s2.len(),
        forall|i: int| 0 <= i < s1.len() ==> f(s1[i]) == f(s2[i]),
    ensures
        sum_by(s1, f) == sum_by(s2, f),
    decreases s1.len(),
{
    if s1.len() != 0 {
        assert(f(s1.last()) == f(s2.last()));
        lemma_sum_by_pointwise(s1.drop_last(), s2.drop_last(), f);
    }
}

pub proof fn lemma_sum_by_zero<T>(s: Seq<T>, f: spec_fn(T) -> int)
    requires
        forall|i: int| 0 <= i < s.len() ==> f(s[i]) == 0,
    ensures
        sum_by(s, f) == 0,
    decreases s.len(),
{
    if s.len() != 0 {
        assert(f(s.last()) == 0);
        lemma_sum_by_zero(s.drop_last(), f);
    }
}


/// A prefix of non-negative terms sums to at most the whole.
pub proof fn lemma_sum_by_prefix_bound<T>(s: Seq<T>, f: spec_fn(T) -> int, k: int)
    requires
        0 <= k <= s.len(),
        forall|i: int| 0 <= i < s.len() ==> f(s[i]) >= 0,
    ensures
        sum_by(s.subrange(0, k), f) <= sum_by(s, f),
    decreases s.len(),
{
    if k == s.len() {
        assert(s.subrange(0, k) =~= s);
    } else {
        assert(s.subrange(0, k) =~= s.drop_last().subrange(0, k));
        assert(f(s.last()) >= 0);
        lemma_sum_by_prefix_bound(s.drop_last(), f, k);
    }
}

} // verus!
