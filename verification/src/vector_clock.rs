//! Vector clock: causal order of events.

use vstd::prelude::*;

use crate::counter::count_of;
use crate::mapsum::{lemma_merge_max_laws, merge_max};
use crate::strmap::StrMap;

verus! {

/// `a <= b` entry-wise (a missing entry counts as 0).
pub open spec fn vc_leq(a: Map<Seq<char>, u64>, b: Map<Seq<char>, u64>) -> bool {
    forall|k: Seq<char>| count_of(a, k) <= count_of(b, k)
}

/// `a` strictly happens before `b`: `a <= b` and some entry is smaller.
pub open spec fn vc_before(a: Map<Seq<char>, u64>, b: Map<Seq<char>, u64>) -> bool {
    vc_leq(a, b) && exists|k: Seq<char>| count_of(a, k) < count_of(b, k)
}

/// Neither clock happens before the other.
pub open spec fn vc_concurrent(a: Map<Seq<char>, u64>, b: Map<Seq<char>, u64>) -> bool {
    !vc_before(a, b) && !vc_before(b, a)
}

/// Vector clock: `node_id -> counter`.
pub struct VectorClock {
    entries: StrMap<u64>,
}

impl View for VectorClock {
    type V = Map<Seq<char>, u64>;

    closed spec fn view(&self) -> Map<Seq<char>, u64> {
        self.entries@
    }
}

/// Entry-wise maximum of two string-keyed maps.
pub fn strmap_merge_max(a: &StrMap<u64>, b: &StrMap<u64>) -> (r: StrMap<u64>)
    requires
        a.wf(),
        b.wf(),
    ensures
        r.wf(),
        r@ == merge_max(a@, b@),
{
    proof {
        b.lemma_wf();
    }
    let mut out = a.copy();
    let n = b.len();
    let ghost ks = b.key_seq();
    proof {
        assert(merge_max(a@, crate::counter::restrict_keys(b@, ks.take(0))) =~= a@);
    }
    for i in 0..n
        invariant
            n == ks.len(),
            ks == b.key_seq(),
            b.wf(),
            ks.no_duplicates(),
            forall|k: Seq<char>| b@.contains_key(k) <==> ks.contains(k),
            out.wf(),
            out@ == merge_max(a@, crate::counter::restrict_keys(b@, ks.take(i as int))),
    {
        let k = b.key_at(i);
        proof {
            assert(ks[i as int] == k@);
            assert(ks.contains(k@));
        }
        let v = *b.get(k.as_str()).unwrap();
        let ghost before = out@;
        let ghost after = merge_max(a@, crate::counter::restrict_keys(b@, ks.take(i as int + 1)));
        proof {
            let t0 = ks.take(i as int);
            let t1 = ks.take(i as int + 1);
            assert(ks[i as int] == k@);
            assert(t1 =~= t0.push(k@));
            assert(!t0.contains(k@)) by {
                if t0.contains(k@) {
                    let j = choose|j: int| 0 <= j < t0.len() && t0[j] == k@;
                    assert(ks[j] == ks[i as int]);
                }
            }
            assert forall|x: Seq<char>| x != k@ implies (t1.contains(x) == t0.contains(x)) by {
                if t1.contains(x) {
                    let j = choose|j: int| 0 <= j < t1.len() && t1[j] == x;
                    assert(t0[j] == x);
                }
                if t0.contains(x) {
                    let j = choose|j: int| 0 <= j < t0.len() && t0[j] == x;
                    assert(t1[j] == x);
                }
            }
            assert(t1[i as int] == k@);
        }
        match out.get(k.as_str()) {
            Some(e) => {
                if v > *e {
                    out.insert(k.clone(), v);
                    proof {
                        assert(out@ =~= after);
                    }
                } else {
                    proof {
                        assert(before =~= after);
                    }
                }
            },
            None => {
                out.insert(k.clone(), v);
                proof {
                    assert(out@ =~= after);
                }
            },
        }
    }
    proof {
        assert(ks.take(n as int) =~= ks);
        assert(crate::counter::restrict_keys(b@, ks) =~= b@);
    }
    out
}

impl VectorClock {
    pub closed spec fn wf(&self) -> bool {
        self.entries.wf()
    }

    pub proof fn lemma_finite(&self)
        requires
            self.wf(),
        ensures
            self@.dom().finite(),
    {
        self.entries.lemma_wf();
    }

    pub fn new() -> (c: Self)
        ensures
            c.wf(),
            c@ == Map::<Seq<char>, u64>::empty(),
    {
        VectorClock { entries: StrMap::new() }
    }

    /// A copy with the same entries.
    pub fn clone(&self) -> (c: Self)
        requires
            self.wf(),
        ensures
            c.wf(),
            c@ == self@,
    {
        VectorClock { entries: self.entries.copy() }
    }

    /// Advances the counter of `node_id` by one.
    pub fn increment(&mut self, node_id: &str)
        requires
            old(self).wf(),
            count_of(old(self)@, node_id@) < u64::MAX,
        ensures
            final(self).wf(),
            final(self)@ == old(self)@.insert(node_id@, (count_of(old(self)@, node_id@) + 1) as u64),
    {
        let cur = match self.entries.get(node_id) {
            Some(v) => *v,
            None => 0,
        };
        self.entries.insert(node_id.to_owned(), cur + 1);
    }

    /// The counter of `node_id` (0 when it has none).
    pub fn get(&self, node_id: &str) -> (v: u64)
        ensures
            v == count_of(self@, node_id@),
    {
        match self.entries.get(node_id) {
            Some(v) => *v,
            None => 0,
        }
    }

    /// Entry-wise maximum.
    pub fn merge(&self, other: &Self) -> (r: Self)
        requires
            self.wf(),
            other.wf(),
        ensures
            r.wf(),
            r@ == merge_max(self@, other@),
    {
        VectorClock { entries: strmap_merge_max(&self.entries, &other.entries) }
    }

    /// Whether `self` strictly happens before `other`.
    pub fn happens_before(&self, other: &Self) -> (b: bool)
        requires
            self.wf(),
            other.wf(),
        ensures
            b == vc_before(self@, other@),
    {
        proof {
            self.entries.lemma_wf();
            other.entries.lemma_wf();
        }
        let mut at_least_one_less = false;
        let n = self.entries.len();
        let ghost ks = self.entries.key_seq();
        let mut i: usize = 0;
        while i < n
            invariant
                i <= n,
                n == ks.len(),
                ks == self.entries.key_seq(),
                self.wf(),
                forall|k: Seq<char>| self@.contains_key(k) <==> ks.contains(k),
                forall|j: int|
                    0 <= j < i ==> count_of(self@, #[trigger] ks[j]) <= count_of(other@, ks[j]),
                at_least_one_less <==> exists|j: int|
                    0 <= j < i && count_of(self@, #[trigger] ks[j]) < count_of(other@, ks[j]),
            decreases n - i,
        {
            let k = self.entries.key_at(i);
            proof {
                assert(ks[i as int] == k@);
                assert(ks.contains(k@));
            }
            let a = *self.entries.get(k.as_str()).unwrap();
            let b = other.get(k.as_str());
            if a > b {
                proof {
                    assert(count_of(self@, ks[i as int]) > count_of(other@, ks[i as int]));
                }
                return false;
            }
            if a < b {
                at_least_one_less = true;
            }
            i = i + 1;
        }
        proof {
            assert forall|k: Seq<char>| count_of(self@, k) <= count_of(other@, k) by {
                if self@.contains_key(k) {
                    assert(ks.contains(k));
                    let j = choose|j: int| 0 <= j < ks.len() && ks[j] == k;
                    assert(count_of(self@, ks[j]) <= count_of(other@, ks[j]));
                }
            }
        }
        if !at_least_one_less {
            let m = other.entries.len();
            let ghost os = other.entries.key_seq();
            proof {
                assert forall|k: Seq<char>|
                    self@.contains_key(k) implies count_of(self@, k) >= count_of(other@, k) by {
                    assert(ks.contains(k));
                    let j = choose|j: int| 0 <= j < ks.len() && ks[j] == k;
                    assert(!(count_of(self@, ks[j]) < count_of(other@, ks[j])));
                }
            }
            let mut i: usize = 0;
            while i < m
                invariant
                    i <= m,
                    m == os.len(),
                    os == other.entries.key_seq(),
                    other.wf(),
                    self.wf(),
                    forall|k: Seq<char>| other@.contains_key(k) <==> os.contains(k),
                    !at_least_one_less,
                    vc_leq(self@, other@),
                    forall|k: Seq<char>|
                        self@.contains_key(k) ==> count_of(self@, k) >= count_of(other@, k),
                    forall|j: int|
                        0 <= j < i ==> count_of(self@, #[trigger] os[j]) >= count_of(other@, os[j]),
                decreases m - i,
            {
                let k = other.entries.key_at(i);
                proof {
                    assert(os[i as int] == k@);
                    assert(os.contains(k@));
                }
                let b = *other.entries.get(k.as_str()).unwrap();
                if b > 0 && !self.entries.contains_key(k.as_str()) {
                    proof {
                        assert(count_of(self@, k@) < count_of(other@, k@));
                    }
                    return true;
                }
                i = i + 1;
            }
            proof {
                assert forall|k: Seq<char>| !(count_of(self@, k) < count_of(other@, k)) by {
                    if other@.contains_key(k) {
                        assert(os.contains(k));
                        let j = choose|j: int| 0 <= j < os.len() && os[j] == k;
                        assert(count_of(self@, os[j]) >= count_of(other@, os[j]));
                    }
                }
            }
        } else {
            proof {
                let j = choose|j: int|
                    0 <= j < n && count_of(self@, #[trigger] ks[j]) < count_of(other@, ks[j]);
                assert(count_of(self@, ks[j]) < count_of(other@, ks[j]));
            }
        }
        at_least_one_less
    }

    /// Whether neither clock happens before the other.
    pub fn concurrent(&self, other: &Self) -> (b: bool)
        requires
            self.wf(),
            other.wf(),
        ensures
            b == vc_concurrent(self@, other@),
    {
        !self.happens_before(other) && !other.happens_before(self)
    }
}

/// Vector-clock merge is a least upper bound: idempotent, commutative,
/// associative, and above both inputs.
pub proof fn vector_clock_merge_laws(a: Map<Seq<char>, u64>, b: Map<Seq<char>, u64>, c: Map<Seq<char>, u64>)
    ensures
        merge_max(a, a) == a,
        merge_max(a, b) == merge_max(b, a),
        merge_max(merge_max(a, b), c) == merge_max(a, merge_max(b, c)),
        vc_leq(a, merge_max(a, b)),
        vc_leq(b, merge_max(a, b)),
        vc_leq(a, c) && vc_leq(b, c) ==> vc_leq(merge_max(a, b), c),
{
    lemma_merge_max_laws(a, b, c);
    let m = merge_max(a, b);
    assert forall|k: Seq<char>| count_of(a, k) <= count_of(m, k) && count_of(b, k) <= count_of(m, k) by {}
    if vc_leq(a, c) && vc_leq(b, c) {
        assert forall|k: Seq<char>| count_of(m, k) <= count_of(c, k) by {
            assert(count_of(a, k) <= count_of(c, k));
            assert(count_of(b, k) <= count_of(c, k));
        }
    }
}

/// Happens-before is a strict order: irreflexive and asymmetric, so equal
/// clocks are concurrent, never ordered.
pub proof fn vector_clock_order_laws(a: Map<Seq<char>, u64>, b: Map<Seq<char>, u64>)
    ensures
        !vc_before(a, a),
        vc_before(a, b) ==> !vc_before(b, a),
        vc_concurrent(a, a),
{
    if vc_before(a, b) && vc_before(b, a) {
        let k = choose|k: Seq<char>| count_of(a, k) < count_of(b, k);
        assert(count_of(b, k) <= count_of(a, k));
    }
}

/// Incrementing a node makes the old clock happen before the new one.
pub proof fn vector_clock_increment_advances(a: Map<Seq<char>, u64>, k: Seq<char>)
    requires
        count_of(a, k) < u64::MAX,
    ensures
        vc_before(a, a.insert(k, (count_of(a, k) + 1) as u64)),
{
    let b = a.insert(k, (count_of(a, k) + 1) as u64);
    assert(count_of(a, k) < count_of(b, k));
    assert forall|x: Seq<char>| count_of(a, x) <= count_of(b, x) by {}
}

} // verus!
