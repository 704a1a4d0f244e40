//! Weighted sums over sequences.
//!
//! The aggregation contracts in this crate are stated as sums of a
//! per-entry weight over a sequence of entries (for example: the bytes of
//! every active raw flow that resolves to a given logical connection).
//! This module defines that sum and the handful of facts the proofs need:
//! how a sum grows with a prefix, that nonnegative weights give
//! nonnegative and monotone sums, and how a sum changes under a point
//! update or a push.

use vstd::prelude::*;

verus! {

/// The sum of `f` over every element of `s`.
pub open spec fn sum_by<T>(s: Seq<T>, f: spec_fn(T) -> int) -> int
    decreases s.len(),
{
    if s.len() == 0 {
        0
    } else {
        sum_by(s.drop_last(), f) + f(s.last())
    }
}

/// Extending a prefix by one element adds that element's weight.
pub proof fn lemma_sum_by_take_step<T>(s: Seq<T>, i: int, f: spec_fn(T) -> int)
    requires
        0 <= i < s.len(),
    ensures
        sum_by(s.take(i + 1), f) == sum_by(s.take(i), f) + f(s[i]),
{
    assert(s.take(i + 1).drop_last() =~= s.take(i));
    assert(s.take(i + 1).last() == s[i]);
}

/// A sum of nonnegative weights is nonnegative.
pub proof fn lemma_sum_by_nonneg<T>(s: Seq<T>, f: spec_fn(T) -> int)
    requires
        forall|i: int| 0 <= i < s.len() ==> #[trigger] f(s[i]) >= 0,
    ensures
        sum_by(s, f) >= 0,
    decreases s.len(),
{
    if s.len() > 0 {
        assert(forall|i: int|
            0 <= i < s.drop_last().len() ==> #[trigger] f(s.drop_last()[i]) >= 0) by {
            assert(forall|i: int|
                0 <= i < s.drop_last().len() ==> s.drop_last()[i] == s[i]);
        }
        lemma_sum_by_nonneg(s.drop_last(), f);
        assert(f(s.last()) >= 0) by {
            assert(s.last() == s[s.len() - 1]);
        }
    }
}

/// A pointwise-smaller weight gives a smaller sum.
pub proof fn lemma_sum_by_le<T>(s: Seq<T>, f: spec_fn(T) -> int, g: spec_fn(T) -> int)
    requires
        forall|i: int| 0 <= i < s.len() ==> #[trigger] f(s[i]) <= #[trigger] g(s[i]),
    ensures
        sum_by(s, f) <= sum_by(s, g),
    decreases s.len(),
{
    if s.len() > 0 {
        assert(forall|i: int|
            0 <= i < s.drop_last().len() ==> #[trigger] f(s.drop_last()[i]) <= #[trigger] g(
                s.drop_last()[i],
            )) by {
            assert(forall|i: int|
                0 <= i < s.drop_last().len() ==> s.drop_last()[i] == s[i]);
        }
        lemma_sum_by_le(s.drop_last(), f, g);
        assert(s.last() == s[s.len() - 1]);
    }
}

/// With nonnegative weights, a prefix sums to no more than the whole.
pub proof fn lemma_sum_by_take_le<T>(s: Seq<T>, i: int, f: spec_fn(T) -> int)
    requires
        0 <= i <= s.len(),
        forall|j: int| 0 <= j < s.len() ==> #[trigger] f(s[j]) >= 0,
    ensures
        sum_by(s.take(i), f) <= sum_by(s, f),
    decreases s.len() - i,
{
    if i == s.len() {
        assert(s.take(i) =~= s);
    } else {
        lemma_sum_by_take_step(s, i, f);
        lemma_sum_by_take_le(s, i + 1, f);
    }
}

/// A prefix sum of a nonnegative weight `f` that is pointwise bounded by
/// `g` lies between zero and the whole sum of `g`.
pub proof fn lemma_sum_by_prefix_bound<T>(s: Seq<T>, i: int, f: spec_fn(T) -> int, g: spec_fn(
    T,
) -> int)
    requires
        0 <= i <= s.len(),
        forall|j: int| 0 <= j < s.len() ==> #[trigger] f(s[j]) >= 0,
        forall|j: int| 0 <= j < s.len() ==> f(s[j]) <= #[trigger] g(s[j]),
    ensures
        0 <= sum_by(s.take(i), f),
        sum_by(s.take(i), f) <= sum_by(s, g),
{
    lemma_sum_by_take_le(s, i, f);
    lemma_sum_by_le(s, f, g);
    assert(forall|j: int| 0 <= j < s.take(i).len() ==> s.take(i)[j] == s[j]);
    lemma_sum_by_nonneg(s.take(i), f);
}

/// Replacing the element at `i` shifts the sum by the difference in weight.
pub proof fn lemma_sum_by_update<T>(s: Seq<T>, i: int, e: T, f: spec_fn(T) -> int)
    requires
        0 <= i < s.len(),
    ensures
        sum_by(s.update(i, e), f) == sum_by(s, f) - f(s[i]) + f(e),
    decreases s.len(),
{
    let su = s.update(i, e);
    if i == s.len() - 1 {
        assert(su.drop_last() =~= s.drop_last());
        assert(su.last() == e);
    } else {
        assert(su.drop_last() =~= s.drop_last().update(i, e));
        assert(su.last() == s.last());
        lemma_sum_by_update(s.drop_last(), i, e, f);
        assert(s.drop_last()[i] == s[i]);
    }
}

/// Appending an element adds its weight.
pub proof fn lemma_sum_by_push<T>(s: Seq<T>, e: T, f: spec_fn(T) -> int)
    ensures
        sum_by(s.push(e), f) == sum_by(s, f) + f(e),
{
    assert(s.push(e).drop_last() =~= s);
    assert(s.push(e).last() == e);
}

} // verus!
