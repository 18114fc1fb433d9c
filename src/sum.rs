use vstd::prelude::*;

verus! {

/// The sum of all balances in `m`.
pub open spec fn sum_of(m: Map<u64, u128>) -> int
    decreases m.dom().len(),
{
    if m.dom().finite() && m.dom().len() > 0 {
        let k = m.dom().choose();
        m[k] + sum_of(m.remove(k))
    } else {
        0
    }
}

/// The balance of `a` in `m`, an absent entry counting as zero.
pub open spec fn balance_in(m: Map<u64, u128>, a: u64) -> int {
    if m.contains_key(a) {
        m[a] as int
    } else {
        0
    }
}

/// Taking one entry out of the sum, whichever entry it is.
pub proof fn lemma_sum_remove(m: Map<u64, u128>, k: u64)
    requires
        m.dom().finite(),
        m.contains_key(k),
    ensures
        sum_of(m) == m[k] + sum_of(m.remove(k)),
    decreases m.dom().len(),
{
    let c = m.dom().choose();
    if c != k {
        let mc = m.remove(c);
        let mk = m.remove(k);
        lemma_sum_remove(mc, k);
        lemma_sum_remove(mk, c);
        assert(mc.remove(k) =~= mk.remove(c));
    }
}

/// A sum of balances is never negative.
pub proof fn lemma_sum_nonnegative(m: Map<u64, u128>)
    requires
        m.dom().finite(),
    ensures
        sum_of(m) >= 0,
    decreases m.dom().len(),
{
    if m.dom().len() > 0 {
        lemma_sum_nonnegative(m.remove(m.dom().choose()));
    }
}

/// No single balance exceeds the sum.
pub proof fn lemma_balance_le_sum(m: Map<u64, u128>, a: u64)
    requires
        m.dom().finite(),
    ensures
        balance_in(m, a) <= sum_of(m),
{
    lemma_sum_nonnegative(m);
    if m.contains_key(a) {
        lemma_sum_remove(m, a);
        lemma_sum_nonnegative(m.remove(a));
    }
}

/// Writing one balance changes the sum by the difference.
pub proof fn lemma_sum_insert(m: Map<u64, u128>, k: u64, v: u128)
    requires
        m.dom().finite(),
    ensures
        sum_of(m.insert(k, v)) == sum_of(m) - balance_in(m, k) + v,
{
    let n = m.insert(k, v);
    lemma_sum_remove(n, k);
    if m.contains_key(k) {
        lemma_sum_remove(m, k);
        assert(n.remove(k) =~= m.remove(k));
    } else {
        assert(n.remove(k) =~= m);
    }
}

/// The empty map sums to zero.
pub proof fn lemma_sum_empty()
    ensures
        sum_of(Map::<u64, u128>::empty()) == 0,
{
    assert(Map::<u64, u128>::empty().dom() =~= Set::empty());
}

} // verus!
