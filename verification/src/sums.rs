//! Adding up the amounts in a table.
use vstd::prelude::*;

verus! {

/// What the amounts in a table add up to.
pub open spec fn total<K>(m: Map<K, i64>) -> int
    decreases m.dom().len(),
    when m.dom().finite()
{
    if m.dom().len() == 0 {
        0
    } else {
        let k = m.dom().choose();
        m[k] + total(m.remove(k))
    }
}

/// An amount in a table; zero for a key that is not in it.
pub open spec fn amount_in<K>(m: Map<K, i64>, k: K) -> i64 {
    if m.contains_key(k) {
        m[k]
    } else {
        0
    }
}

/// Equal up to what a counter of 64 bits drops when it wraps.
pub open spec fn same_count(a: int, b: int) -> bool {
    (a - b) % 0x1_0000_0000_0000_0000 == 0
}

/// Equal up to what a counter of 32 bits drops when it wraps.
pub open spec fn same_count32(a: int, b: int) -> bool {
    (a - b) % 0x1_0000_0000 == 0
}

/// Taking a key out of a table takes its amount out of the total.
pub proof fn lemma_total_remove<K>(m: Map<K, i64>, k: K)
    requires
        m.dom().finite(),
    ensures
        total(m) == amount_in(m, k) + total(m.remove(k)),
    decreases m.dom().len(),
{
    if m.contains_key(k) {
        let c = m.dom().choose();
        assert(m.dom().contains(k));
        if c != k {
            lemma_total_remove(m.remove(c), k);
            lemma_total_remove(m.remove(k), c);
            assert(m.remove(c).remove(k) =~= m.remove(k).remove(c));
        }
    } else {
        assert(m.remove(k) =~= m);
    }
}

/// Putting an amount into a table puts it in place of what stood there.
pub proof fn lemma_total_insert<K>(m: Map<K, i64>, k: K, amount: i64)
    requires
        m.dom().finite(),
    ensures
        total(m.insert(k, amount)) == total(m) + amount - amount_in(m, k),
{
    lemma_total_remove(m.insert(k, amount), k);
    lemma_total_remove(m, k);
    assert(m.insert(k, amount).remove(k) =~= m.remove(k));
}

/// Amounts that are not negative add up to at least each of them.
pub proof fn lemma_total_of_parts<K>(m: Map<K, i64>)
    requires
        m.dom().finite(),
        forall|k: K| #[trigger] m.contains_key(k) ==> m[k] >= 0,
    ensures
        total(m) >= 0,
        forall|k: K| #[trigger] m.contains_key(k) ==> m[k] <= total(m),
    decreases m.dom().len(),
{
    if m.dom().len() > 0 {
        lemma_total_of_parts(m.remove(m.dom().choose()));
    }
    assert forall|k: K| #[trigger] m.contains_key(k) implies m[k] <= total(m) by {
        lemma_total_remove(m, k);
        assert(m.dom().contains(k));
        lemma_total_of_parts(m.remove(k));
    }
}

/// Taking amounts that are not negative out of a table does not raise the total.
pub proof fn lemma_total_without<K>(m: Map<K, i64>, keys: Set<K>)
    requires
        m.dom().finite(),
        forall|k: K| #[trigger] m.contains_key(k) ==> m[k] >= 0,
    ensures
        total(m.remove_keys(keys)) <= total(m),
    decreases m.dom().len(),
{
    if exists|k: K| m.contains_key(k) && keys.contains(k) {
        let k = choose|k: K| m.contains_key(k) && keys.contains(k);
        assert(m.dom().contains(k));
        lemma_total_remove(m, k);
        lemma_total_without(m.remove(k), keys);
        assert(m.remove(k).remove_keys(keys) =~= m.remove_keys(keys));
    } else {
        assert(m.remove_keys(keys) =~= m);
    }
}

/// Counters that wrap agree with the integers up to what they drop.
pub proof fn lemma_wrapping(a: i64, b: i64)
    ensures
        same_count(a.wrapping_add(b) as int, a + b),
        same_count(a.wrapping_sub(b) as int, a - b),
{
}

} // verus!
