//! Sums over the entries of storage maps.
use vstd::prelude::*;

verus! {

/// The sum of the values of the entries.
pub open spec fn value_sum<K>(s: Seq<(K, u64)>) -> int
    decreases s.len(),
{
    if s.len() == 0 {
        0
    } else {
        value_sum(s.drop_last()) + s.last().1
    }
}

/// The sum is at least any one value.
pub proof fn lemma_value_sum_bound<K>(s: Seq<(K, u64)>, i: int)
    requires
        0 <= i < s.len(),
    ensures
        value_sum(s) >= s[i].1,
        value_sum(s) >= 0,
    decreases s.len(),
{
    lemma_value_sum_nonneg(s.drop_last());
    if i < s.len() - 1 {
        lemma_value_sum_bound(s.drop_last(), i);
    }
}

pub proof fn lemma_value_sum_nonneg<K>(s: Seq<(K, u64)>)
    ensures
        value_sum(s) >= 0,
    decreases s.len(),
{
    if s.len() > 0 {
        lemma_value_sum_nonneg(s.drop_last());
    }
}

/// Replacing one entry changes the sum by the difference of the values.
pub proof fn lemma_value_sum_update<K>(s: Seq<(K, u64)>, i: int, e: (K, u64))
    requires
        0 <= i < s.len(),
    ensures
        value_sum(s.update(i, e)) == value_sum(s) - s[i].1 + e.1,
    decreases s.len(),
{
    let t = s.update(i, e);
    if i == s.len() - 1 {
        assert(t.drop_last() =~= s.drop_last());
    } else {
        lemma_value_sum_update(s.drop_last(), i, e);
        assert(t.drop_last() =~= s.drop_last().update(i, e));
    }
}

/// Adding an entry adds its value to the sum.
pub proof fn lemma_value_sum_push<K>(s: Seq<(K, u64)>, e: (K, u64))
    ensures
        value_sum(s.push(e)) == value_sum(s) + e.1,
{
    assert(s.push(e).drop_last() =~= s);
}

} // verus!
