//! Sums over the values of a finite map, and the entry-wise maximum of two
//! maps: the arithmetic that counters and clocks are built on.

use vstd::prelude::*;

verus! {

/// The sum of all values of a finite map.
pub open spec fn map_total<K>(m: Map<K, u64>) -> nat
    decreases m.dom().len(),
    when m.dom().finite()
{
    if m.dom().len() == 0 {
        0
    } else {
        let k = m.dom().choose();
        (m[k] as nat) + map_total(m.remove(k))
    }
}

/// Entry-wise maximum of two maps; a key present on one side only keeps
/// that side's value.
pub open spec fn merge_max<K>(a: Map<K, u64>, b: Map<K, u64>) -> Map<K, u64> {
    Map::new(
        |k: K| a.contains_key(k) || b.contains_key(k),
        |k: K|
            if a.contains_key(k) && b.contains_key(k) {
                if a[k] >= b[k] {
                    a[k]
                } else {
                    b[k]
                }
            } else if a.contains_key(k) {
                a[k]
            } else {
                b[k]
            },
    )
}

/// Removing any key takes exactly its value off the total.
pub proof fn lemma_total_remove<K>(m: Map<K, u64>, k: K)
    requires
        m.dom().finite(),
        m.contains_key(k),
    ensures
        map_total(m) == m[k] + map_total(m.remove(k)),
    decreases m.dom().len(),
{
    assert(m.dom().len() > 0) by {
        assert(m.dom().contains(k));
    }
    let c = m.dom().choose();
    if c != k {
        let mc = m.remove(c);
        let mk = m.remove(k);
        lemma_total_remove(mc, k);
        lemma_total_remove(mk, c);
        assert(mc.remove(k) =~= mk.remove(c));
    }
}

/// The total after an insertion.
pub proof fn lemma_total_insert<K>(m: Map<K, u64>, k: K, v: u64)
    requires
        m.dom().finite(),
    ensures
        map_total(m.insert(k, v)) == map_total(m) + v - (if m.contains_key(k) {
            m[k] as int
        } else {
            0int
        }),
{
    let mi = m.insert(k, v);
    lemma_total_remove(mi, k);
    if m.contains_key(k) {
        lemma_total_remove(m, k);
        assert(mi.remove(k) =~= m.remove(k));
    } else {
        assert(mi.remove(k) =~= m);
    }
}

/// A map that is entry-wise below another (on a smaller domain) has the
/// smaller total.
pub proof fn lemma_total_le<K>(a: Map<K, u64>, b: Map<K, u64>)
    requires
        b.dom().finite(),
        a.dom().subset_of(b.dom()),
        forall|k: K| a.contains_key(k) ==> a[k] <= b[k],
    ensures
        a.dom().finite(),
        map_total(a) <= map_total(b),
    decreases b.dom().len(),
{
    vstd::set_lib::lemma_len_subset(a.dom(), b.dom());
    if b.dom().len() == 0 {
        assert(a.dom() =~= Set::<K>::empty()) by {
            assert forall|k: K| !a.dom().contains(k) by {
                if a.dom().contains(k) {
                    assert(b.dom().contains(k));
                }
            }
        }
    } else {
        let k = b.dom().choose();
        lemma_total_remove(b, k);
        lemma_total_le(a.remove(k), b.remove(k));
        if a.contains_key(k) {
            lemma_total_remove(a, k);
        } else {
            assert(a.remove(k) =~= a);
        }
    }
}

/// The domain of a maximum-merge is finite when both sides are.
pub proof fn lemma_merge_max_finite<K>(a: Map<K, u64>, b: Map<K, u64>)
    requires
        a.dom().finite(),
        b.dom().finite(),
    ensures
        merge_max(a, b).dom().finite(),
        merge_max(a, b).dom() == a.dom().union(b.dom()),
{
    assert(merge_max(a, b).dom() =~= a.dom().union(b.dom()));
}

/// Maximum-merge is idempotent, commutative and associative.
pub proof fn lemma_merge_max_laws<K>(a: Map<K, u64>, b: Map<K, u64>, c: Map<K, u64>)
    ensures
        merge_max(a, a) == a,
        merge_max(a, b) == merge_max(b, a),
        merge_max(merge_max(a, b), c) == merge_max(a, merge_max(b, c)),
{
    assert(merge_max(a, a) =~= a);
    assert(merge_max(a, b) =~= merge_max(b, a));
    assert(merge_max(merge_max(a, b), c) =~= merge_max(a, merge_max(b, c)));
}

/// Each side of a maximum-merge is entry-wise below the result.
pub proof fn lemma_merge_max_upper<K>(a: Map<K, u64>, b: Map<K, u64>)
    requires
        a.dom().finite(),
        b.dom().finite(),
    ensures
        map_total(a) <= map_total(merge_max(a, b)),
        map_total(b) <= map_total(merge_max(a, b)),
{
    lemma_merge_max_finite(a, b);
    lemma_total_le(a, merge_max(a, b));
    lemma_total_le(b, merge_max(a, b));
}

} // verus!
