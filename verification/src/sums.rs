//! Sums over sequences, and why the order of the summands does not matter.

use vstd::prelude::*;
use vstd::seq_lib::{to_multiset_build, to_multiset_contains, to_multiset_len, to_multiset_remove};

verus! {

/// The sum of `weight` over the elements of `items`.
pub open spec fn sum_over<A>(items: Seq<A>, weight: spec_fn(A) -> nat) -> nat
    decreases items.len(),
{
    if items.len() == 0 {
        0
    } else {
        sum_over(items.drop_last(), weight) + weight(items.last())
    }
}

/// The sum over two sequences in a row is the sum of their sums.
pub proof fn lemma_sum_over_add<A>(first: Seq<A>, second: Seq<A>, weight: spec_fn(A) -> nat)
    ensures
        sum_over(first + second, weight) == sum_over(first, weight) + sum_over(second, weight),
    decreases second.len(),
{
    if second.len() == 0 {
        assert(first + second =~= first);
    } else {
        lemma_sum_over_add(first, second.drop_last(), weight);
        assert((first + second).drop_last() =~= first + second.drop_last());
        assert((first + second).last() == second.last());
    }
}

/// Taking one element out lowers the sum by its weight.
pub proof fn lemma_sum_over_remove<A>(items: Seq<A>, weight: spec_fn(A) -> nat, i: int)
    requires
        0 <= i < items.len(),
    ensures
        sum_over(items.remove(i), weight) + weight(items[i]) == sum_over(items, weight),
{
    let head = items.subrange(0, i);
    let tail = items.subrange(i + 1, items.len() as int);
    let one = seq![items[i]];
    assert(items =~= (head + one) + tail);
    lemma_sum_over_add(head + one, tail, weight);
    lemma_sum_over_add(head, one, weight);
    lemma_sum_over_add(head, tail, weight);
    assert(one.drop_last() =~= Seq::<A>::empty());
    assert(sum_over(one, weight) == weight(items[i])) by {
        assert(sum_over(one.drop_last(), weight) == 0);
    }
}

/// Two sequences that hold the same elements equally often have the same
/// sum.
pub proof fn lemma_sum_over_permutation<A>(first: Seq<A>, second: Seq<A>, weight: spec_fn(A) -> nat)
    requires
        first.to_multiset() == second.to_multiset(),
    ensures
        sum_over(first, weight) == sum_over(second, weight),
    decreases first.len(),
{
    broadcast use vstd::multiset::group_multiset_axioms;

    to_multiset_len(first);
    to_multiset_len(second);
    if first.len() > 0 {
        let x = first.last();
        let rest = first.drop_last();
        assert(rest.push(x) =~= first);
        to_multiset_build(rest, x);
        to_multiset_contains(second, x);
        assert(first.to_multiset().count(x) > 0);
        let j = choose|j: int| 0 <= j < second.len() && second[j] == x;
        to_multiset_remove(second, j);
        assert(rest.to_multiset() =~= second.remove(j).to_multiset());
        lemma_sum_over_permutation(rest, second.remove(j), weight);
        lemma_sum_over_remove(second, weight, j);
    }
}

} // verus!
