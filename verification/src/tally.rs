use vstd::prelude::*;

verus! {

/// The sum of a sequence of machine integers, as a mathematical number.
pub open spec fn sum_usize(s: Seq<usize>) -> nat
    decreases s.len(),
{
    if s.len() == 0 {
        0
    } else {
        sum_usize(s.drop_last()) + s.last() as nat
    }
}

/// Lowering one entry lowers the sum by exactly the same amount.
pub proof fn lemma_sum_usize_update_lower(s: Seq<usize>, i: int, v: usize)
    requires
        0 <= i < s.len(),
        v <= s[i],
    ensures
        sum_usize(s.update(i, v)) + (s[i] - v) == sum_usize(s),
    decreases s.len(),
{
    let s2 = s.update(i, v);
    if i == s.len() - 1 {
        assert(s2.drop_last() =~= s.drop_last());
        assert(s2.last() == v);
    } else {
        assert(s2.drop_last() =~= s.drop_last().update(i, v));
        assert(s2.last() == s.last());
        lemma_sum_usize_update_lower(s.drop_last(), i, v);
    }
}

/// The number of `false` entries in a sequence of booleans.
pub open spec fn count_false(s: Seq<bool>) -> nat
    decreases s.len(),
{
    if s.len() == 0 {
        0
    } else {
        count_false(s.drop_last()) + (if s.last() {
            0nat
        } else {
            1nat
        })
    }
}

/// Turning a `false` entry `true` lowers the count by one.
pub proof fn lemma_count_false_update_true(s: Seq<bool>, i: int)
    requires
        0 <= i < s.len(),
        !s[i],
    ensures
        count_false(s.update(i, true)) + 1 == count_false(s),
    decreases s.len(),
{
    let s2 = s.update(i, true);
    if i == s.len() - 1 {
        assert(s2.drop_last() =~= s.drop_last());
        assert(s2.last());
    } else {
        assert(s2.drop_last() =~= s.drop_last().update(i, true));
        assert(s2.last() == s.last());
        lemma_count_false_update_true(s.drop_last(), i);
    }
}

} // verus!
