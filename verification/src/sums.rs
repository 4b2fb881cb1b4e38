//! Summing the balances recorded in a ledger map, with the lemmas that say
//! how the sum moves when one entry is removed, inserted or bounded.

use vstd::prelude::*;

verus! {

/// The sum of all values of a finite map from accounts to balances.
pub open spec fn sum_of(m: Map<u64, u128>) -> int
    decreases m.dom().len(),
        when m.dom().finite()
    via sum_of_decreases
{
    if m.dom().finite() && m.dom().len() > 0 {
        let k = m.dom().choose();
        m[k] + sum_of(m.remove(k))
    } else {
        0
    }
}

#[via_fn]
proof fn sum_of_decreases(m: Map<u64, u128>) {
    if m.dom().finite() && m.dom().len() > 0 {
        let k = m.dom().choose();
        if !m.dom().contains(k) {
            assert(m.dom() =~= Set::<u64>::empty());
        }
    }
}

/// Taking one entry out of the map takes exactly its value off the sum.
pub proof fn lemma_sum_remove(m: Map<u64, u128>, k: u64)
    requires
        m.dom().finite(),
        m.dom().contains(k),
    ensures
        sum_of(m) == m[k] + sum_of(m.remove(k)),
    decreases m.dom().len(),
{
    let k0 = m.dom().choose();
    assert(m.dom().contains(k0));
    assert(sum_of(m) == m[k0] + sum_of(m.remove(k0)));
    if k0 == k {
    } else {
        lemma_sum_remove(m.remove(k0), k);
        lemma_sum_remove(m.remove(k), k0);
        assert(m.remove(k0).remove(k) =~= m.remove(k).remove(k0));
    }
}

/// The sum of a map of non-negative balances is itself non-negative.
pub proof fn lemma_sum_nonneg(m: Map<u64, u128>)
    requires
        m.dom().finite(),
    ensures
        sum_of(m) >= 0,
    decreases m.dom().len(),
{
    if m.dom().len() > 0 {
        let k = m.dom().choose();
        if !m.dom().contains(k) {
            assert(m.dom() =~= Set::<u64>::empty());
        }
        lemma_sum_nonneg(m.remove(k));
    }
}

/// No single entry exceeds the sum of all entries.
pub proof fn lemma_entry_le_sum(m: Map<u64, u128>, k: u64)
    requires
        m.dom().finite(),
        m.dom().contains(k),
    ensures
        m[k] <= sum_of(m),
{
    lemma_sum_remove(m, k);
    lemma_sum_nonneg(m.remove(k));
}

/// Writing an entry moves the sum by the difference between the new value
/// and whatever the map recorded under that key before (zero when absent).
pub proof fn lemma_sum_insert(m: Map<u64, u128>, k: u64, v: u128)
    requires
        m.dom().finite(),
    ensures
        sum_of(m.insert(k, v)) == sum_of(m) + v - (if m.contains_key(k) {
            m[k]
        } else {
            0
        }),
{
    lemma_sum_remove(m.insert(k, v), k);
    if m.contains_key(k) {
        lemma_sum_remove(m, k);
        assert(m.insert(k, v).remove(k) =~= m.remove(k));
    } else {
        assert(m.insert(k, v).remove(k) =~= m);
    }
}

/// The empty map sums to zero.
pub proof fn lemma_sum_empty()
    ensures
        sum_of(Map::<u64, u128>::empty()) == 0,
{
    assert(Map::<u64, u128>::empty().dom() =~= Set::<u64>::empty());
}

} // verus!
