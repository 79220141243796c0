//! Grow-only counter [`GCounter`] and increment/decrement counter
//! [`PNCounter`].

use vstd::prelude::*;

use crate::mapsum::{
    lemma_merge_max_finite, lemma_merge_max_laws, lemma_merge_max_upper, lemma_total_insert,
    lemma_total_le, lemma_total_remove, map_total, merge_max,
};
use crate::strmap::StrMap;

verus! {

/// The count a node has in a per-node map (0 when it has none).
pub open spec fn count_of(m: Map<Seq<char>, u64>, k: Seq<char>) -> nat {
    if m.contains_key(k) {
        m[k] as nat
    } else {
        0
    }
}

/// The entries of `m` whose keys occur in `ks`.
pub open spec fn restrict_keys<V>(m: Map<Seq<char>, V>, ks: Seq<Seq<char>>) -> Map<Seq<char>, V> {
    Map::new(|k: Seq<char>| m.contains_key(k) && ks.contains(k), |k: Seq<char>| m[k])
}

/// Grow-only counter: every node keeps its own count; merging takes the
/// entry-wise maximum.
pub struct GCounter {
    counts: StrMap<u64>,
    /// The sum of all counts, kept up to date on every write.
    total: u64,
}

impl View for GCounter {
    type V = Map<Seq<char>, u64>;

    closed spec fn view(&self) -> Map<Seq<char>, u64> {
        self.counts@
    }
}

impl GCounter {
    pub closed spec fn wf(&self) -> bool {
        &&& self.counts.wf()
        &&& self.total == map_total(self.counts@)
    }

    /// The per-node map of a well-formed counter is finite.
    pub proof fn lemma_finite(&self)
        requires
            self.wf(),
        ensures
            self@.dom().finite(),
    {
        self.counts.lemma_wf();
    }

    pub fn new() -> (c: Self)
        ensures
            c.wf(),
            c@ == Map::<Seq<char>, u64>::empty(),
    {
        let c = GCounter { counts: StrMap::new(), total: 0 };
        proof {
            c.counts.lemma_wf();
            assert(c.counts@.dom().len() == 0);
        }
        c
    }

    /// Adds `delta` to the count of `node_id`.
    pub fn inc(&mut self, node_id: &str, delta: u64)
        requires
            old(self).wf(),
            map_total(old(self)@) + delta <= u64::MAX,
        ensures
            final(self).wf(),
            final(self)@ == old(self)@.insert(
                node_id@,
                (count_of(old(self)@, node_id@) + delta) as u64,
            ),
            map_total(final(self)@) == map_total(old(self)@) + delta,
    {
        proof {
            self.counts.lemma_wf();
        }
        let cur = match self.counts.get(node_id) {
            Some(v) => *v,
            None => 0,
        };
        proof {
            if self.counts@.contains_key(node_id@) {
                lemma_total_remove(self.counts@, node_id@);
            }
            lemma_total_insert(self.counts@, node_id@, (cur + delta) as u64);
        }
        self.counts.insert(node_id.to_owned(), cur + delta);
        self.total = self.total + delta;
    }

    /// The sum over all nodes.
    pub fn value(&self) -> (v: u64)
        requires
            self.wf(),
        ensures
            v == map_total(self@),
    {
        self.total
    }

    /// Merge by entry-wise maximum.
    pub fn merge(&self, other: &Self) -> (r: Self)
        requires
            self.wf(),
            other.wf(),
            map_total(merge_max(self@, other@)) <= u64::MAX,
        ensures
            r.wf(),
            r@ == merge_max(self@, other@),
    {
        proof {
            self.counts.lemma_wf();
            other.counts.lemma_wf();
            lemma_merge_max_finite(self@, other@);
        }
        let mut counts = self.counts.copy();
        let mut total = self.total;
        let n = other.counts.len();
        let ghost ks = other.counts.key_seq();
        let ghost whole = merge_max(self@, other@);
        proof {
            assert(merge_max(self@, restrict_keys(other@, ks.take(0))) =~= self@);
        }
        for i in 0..n
            invariant
                n == ks.len(),
                ks == other.counts.key_seq(),
                self.wf(),
                other.wf(),
                ks.no_duplicates(),
                forall|k: Seq<char>| other@.contains_key(k) <==> ks.contains(k),
                whole == merge_max(self@, other@),
                whole.dom().finite(),
                map_total(whole) <= u64::MAX,
                counts.wf(),
                total == map_total(counts@),
                counts@ == merge_max(self@, restrict_keys(other@, ks.take(i as int))),
        {
            let k = other.counts.key_at(i);
            proof {
                assert(ks[i as int] == k@);
                assert(ks.contains(k@));
                assert(ks.take(i as int + 1) =~= ks.take(i as int).push(k@));
                assert(!ks.take(i as int).contains(k@)) by {
                    if ks.take(i as int).contains(k@) {
                        let j = choose|j: int| 0 <= j < i && ks.take(i as int)[j] == k@;
                        assert(ks[j] == ks[i as int]);
                    }
                }
                counts.lemma_wf();
            }
            let v = *other.counts.get(k.as_str()).unwrap();
            let ghost before = counts@;
            let ghost after = merge_max(self@, restrict_keys(other@, ks.take(i as int + 1)));
            proof {
                let r0 = restrict_keys(other@, ks.take(i as int));
                let r1 = restrict_keys(other@, ks.take(i as int + 1));
                assert forall|x: Seq<char>| x != k@ implies (r1.contains_key(x) == r0.contains_key(x)) by {
                    let t0 = ks.take(i as int);
                    let t1 = ks.take(i as int + 1);
                    assert(t1 == t0.push(k@));
                    assert(t1.contains(x) == t0.contains(x)) by {
                        if t1.contains(x) {
                            let j = choose|j: int| 0 <= j < t1.len() && t1[j] == x;
                            assert(t0[j] == x);
                        }
                        if t0.contains(x) {
                            let j = choose|j: int| 0 <= j < t0.len() && t0[j] == x;
                            assert(t1[j] == x);
                        }
                    }
                }
                assert(r1.contains_key(k@)) by {
                    assert(ks.take(i as int + 1)[i as int] == k@);
                }
                assert(!r0.contains_key(k@));
                assert(v == other@[k@]);
            }
            match counts.get(k.as_str()) {
                Some(e) => {
                    let e = *e;
                    if v > e {
                        proof {
                            lemma_total_insert(before, k@, v);
                            assert(before.insert(k@, v) =~= after);
                            lemma_total_le(after, whole);
                        }
                        total = total + (v - e);
                        counts.insert(k.clone(), v);
                    } else {
                        proof {
                            assert(before =~= after);
                        }
                    }
                },
                None => {
                    proof {
                        lemma_total_insert(before, k@, v);
                        assert(before.insert(k@, v) =~= after);
                        lemma_total_le(after, whole);
                    }
                    total = total + v;
                    counts.insert(k.clone(), v);
                },
            }
        }
        proof {
            assert(ks.take(n as int) =~= ks);
            assert(restrict_keys(other@, ks) =~= other@);
        }
        GCounter { counts, total }
    }
}

/// Increment/decrement counter: two grow-only counters, value = P - N.
pub struct PNCounter {
    p: GCounter,
    n: GCounter,
}

impl View for PNCounter {
    type V = (Map<Seq<char>, u64>, Map<Seq<char>, u64>);

    closed spec fn view(&self) -> (Map<Seq<char>, u64>, Map<Seq<char>, u64>) {
        (self.p@, self.n@)
    }
}

impl PNCounter {
    pub closed spec fn wf(&self) -> bool {
        self.p.wf() && self.n.wf()
    }

    pub proof fn lemma_finite(&self)
        requires
            self.wf(),
        ensures
            self@.0.dom().finite(),
            self@.1.dom().finite(),
    {
        self.p.lemma_finite();
        self.n.lemma_finite();
    }

    pub fn new() -> (c: Self)
        ensures
            c.wf(),
            c@ == (Map::<Seq<char>, u64>::empty(), Map::<Seq<char>, u64>::empty()),
    {
        PNCounter { p: GCounter::new(), n: GCounter::new() }
    }

    /// Adds `delta` to the increments of `node_id`.
    pub fn inc(&mut self, node_id: &str, delta: u64)
        requires
            old(self).wf(),
            map_total(old(self)@.0) + delta <= u64::MAX,
        ensures
            final(self).wf(),
            final(self)@.0 == old(self)@.0.insert(
                node_id@,
                (count_of(old(self)@.0, node_id@) + delta) as u64,
            ),
            final(self)@.1 == old(self)@.1,
    {
        self.p.inc(node_id, delta);
    }

    /// Adds `delta` to the decrements of `node_id`.
    pub fn dec(&mut self, node_id: &str, delta: u64)
        requires
            old(self).wf(),
            map_total(old(self)@.1) + delta <= u64::MAX,
        ensures
            final(self).wf(),
            final(self)@.0 == old(self)@.0,
            final(self)@.1 == old(self)@.1.insert(
                node_id@,
                (count_of(old(self)@.1, node_id@) + delta) as u64,
            ),
    {
        self.n.inc(node_id, delta);
    }

    /// Increments minus decrements, each total taken as an `i64`.
    pub fn value(&self) -> (v: i64)
        requires
            self.wf(),
            map_total(self@.0) <= i64::MAX,
            map_total(self@.1) <= i64::MAX,
        ensures
            v == map_total(self@.0) - map_total(self@.1),
    {
        let p = self.p.value();
        let n = self.n.value();
        (p as i64) - (n as i64)
    }

    pub fn merge(&self, other: &Self) -> (r: Self)
        requires
            self.wf(),
            other.wf(),
            map_total(merge_max(self@.0, other@.0)) <= u64::MAX,
            map_total(merge_max(self@.1, other@.1)) <= u64::MAX,
        ensures
            r.wf(),
            r@ == (merge_max(self@.0, other@.0), merge_max(self@.1, other@.1)),
    {
        PNCounter { p: self.p.merge(&other.p), n: self.n.merge(&other.n) }
    }
}

/// Grow-only counter merge laws: merging is idempotent, commutative and
/// associative, so the value does not depend on the order of merges.
pub proof fn gcounter_merge_laws(a: Map<Seq<char>, u64>, b: Map<Seq<char>, u64>, c: Map<Seq<char>, u64>)
    ensures
        merge_max(a, a) == a,
        merge_max(a, b) == merge_max(b, a),
        merge_max(merge_max(a, b), c) == merge_max(a, merge_max(b, c)),
        map_total(merge_max(a, b)) == map_total(merge_max(b, a)),
{
    lemma_merge_max_laws(a, b, c);
}

/// Incrementing by `delta` raises the value by exactly `delta`.
pub proof fn gcounter_inc_adds(m: Map<Seq<char>, u64>, k: Seq<char>, delta: u64)
    requires
        m.dom().finite(),
        count_of(m, k) + delta <= u64::MAX,
    ensures
        map_total(m.insert(k, (count_of(m, k) + delta) as u64)) == map_total(m) + delta,
{
    lemma_total_insert(m, k, (count_of(m, k) + delta) as u64);
}

/// A merged counter is at least as large as each side, and at most the sum
/// of both (per node it keeps the larger count, never the sum).
pub proof fn gcounter_merge_bounds(a: Map<Seq<char>, u64>, b: Map<Seq<char>, u64>)
    requires
        a.dom().finite(),
        b.dom().finite(),
    ensures
        map_total(a) <= map_total(merge_max(a, b)),
        map_total(b) <= map_total(merge_max(a, b)),
{
    lemma_merge_max_upper(a, b);
}

/// The merge of two positive-negative counter states, part by part.
pub open spec fn pn_merge(
    a: (Map<Seq<char>, u64>, Map<Seq<char>, u64>),
    b: (Map<Seq<char>, u64>, Map<Seq<char>, u64>),
) -> (Map<Seq<char>, u64>, Map<Seq<char>, u64>) {
    (merge_max(a.0, b.0), merge_max(a.1, b.1))
}

/// Positive-negative counter merge laws: merging is idempotent, commutative
/// and associative, so the value does not depend on the order of merges.
pub proof fn pncounter_merge_laws(
    a: (Map<Seq<char>, u64>, Map<Seq<char>, u64>),
    b: (Map<Seq<char>, u64>, Map<Seq<char>, u64>),
    c: (Map<Seq<char>, u64>, Map<Seq<char>, u64>),
)
    ensures
        pn_merge(a, a) == a,
        pn_merge(a, b) == pn_merge(b, a),
        pn_merge(pn_merge(a, b), c) == pn_merge(a, pn_merge(b, c)),
{
    lemma_merge_max_laws(a.0, b.0, c.0);
    lemma_merge_max_laws(a.1, b.1, c.1);
}

} // verus!
