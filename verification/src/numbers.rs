//! Plain sums over sequences, for laws that speak of totals.

use vstd::prelude::*;

verus! {

/// The sum of some numbers.
pub open spec fn plain_sum(values: Seq<int>) -> int
    decreases values.len(),
{
    if values.len() == 0 {
        0
    } else {
        plain_sum(values.drop_last()) + values.last()
    }
}

/// Sums add up.
pub proof fn lemma_sum_append(left: Seq<int>, right: Seq<int>)
    ensures
        plain_sum(left + right) == plain_sum(left) + plain_sum(right),
    decreases right.len(),
{
    if right.len() == 0 {
        assert(left + right =~= left);
    } else {
        lemma_sum_append(left, right.drop_last());
        assert((left + right).drop_last() =~= left + right.drop_last());
    }
}

} // verus!
