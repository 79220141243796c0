//! Last-writer-wins map: every key is an independent LWW register, and a
//! removal is a tombstone that competes under the same rule.

use vstd::prelude::*;

use crate::lww_register::{lemma_stamp_order, stamp_gt};
use crate::strmap::{ExactClone, StrMap};
use crate::text::text_lt;

verus! {

/// One key's state: `value == None` is a tombstone.
pub struct LwwEntry<V> {
    pub value: Option<V>,
    pub clock: u64,
    pub node_id: String,
}

impl<V: ExactClone> LwwEntry<V> {
    fn copy(&self) -> (r: Self)
        ensures
            r == *self,
    {
        LwwEntry { value: self.value.exact_clone(), clock: self.clock, node_id: self.node_id.clone() }
    }

    /// Higher clock wins; on equal clocks the greater node id.
    pub fn dominates(&self, other: &Self) -> (b: bool)
        ensures
            b == entry_dominates(*self, *other),
    {
        self.clock > other.clock || (self.clock == other.clock && text_lt(
            other.node_id.as_str(),
            self.node_id.as_str(),
        ))
    }
}

impl<V: ExactClone> ExactClone for LwwEntry<V> {
    fn exact_clone(&self) -> (r: Self) {
        self.copy()
    }
}

pub open spec fn entry_dominates<V>(a: LwwEntry<V>, b: LwwEntry<V>) -> bool {
    stamp_gt(a.clock, a.node_id@, b.clock, b.node_id@)
}

/// The state after offering `e` for key `k`: it replaces the current entry
/// only if it strictly dominates it.
pub open spec fn lww_upsert<V>(m: Map<Seq<char>, LwwEntry<V>>, k: Seq<char>, e: LwwEntry<V>) -> Map<
    Seq<char>,
    LwwEntry<V>,
> {
    if m.contains_key(k) && !entry_dominates(e, m[k]) {
        m
    } else {
        m.insert(k, e)
    }
}

/// Per-key LWW merge.
pub open spec fn lww_merge<V>(a: Map<Seq<char>, LwwEntry<V>>, b: Map<Seq<char>, LwwEntry<V>>) -> Map<
    Seq<char>,
    LwwEntry<V>,
> {
    Map::new(
        |k: Seq<char>| a.contains_key(k) || b.contains_key(k),
        |k: Seq<char>|
            if a.contains_key(k) && b.contains_key(k) {
                if entry_dominates(b[k], a[k]) {
                    b[k]
                } else {
                    a[k]
                }
            } else if a.contains_key(k) {
                a[k]
            } else {
                b[k]
            },
    )
}

/// The keys that are not tombstoned, with their values.
pub open spec fn visible<V>(m: Map<Seq<char>, LwwEntry<V>>) -> Map<Seq<char>, V> {
    Map::new(
        |k: Seq<char>| m.contains_key(k) && m[k].value is Some,
        |k: Seq<char>| m[k].value->0,
    )
}

/// Equal stamps on a shared key carry equal entries.
pub open spec fn lww_map_coherent<V>(a: Map<Seq<char>, LwwEntry<V>>, b: Map<Seq<char>, LwwEntry<V>>) -> bool {
    forall|k: Seq<char>|
        a.contains_key(k) && b.contains_key(k) && a[k].clock == b[k].clock && a[k].node_id@
            == b[k].node_id@ ==> a[k] == b[k]
}

/// The keys of `ks` (in order) whose entries are not tombstones.
pub open spec fn visible_keys<V>(ks: Seq<Seq<char>>, m: Map<Seq<char>, LwwEntry<V>>) -> Seq<Seq<char>>
    decreases ks.len(),
{
    if ks.len() == 0 {
        Seq::empty()
    } else {
        let rest = visible_keys(ks.drop_last(), m);
        if m.contains_key(ks.last()) && m[ks.last()].value is Some {
            rest.push(ks.last())
        } else {
            rest
        }
    }
}

pub proof fn lemma_visible_keys<V>(ks: Seq<Seq<char>>, m: Map<Seq<char>, LwwEntry<V>>)
    requires
        ks.no_duplicates(),
    ensures
        visible_keys(ks, m).no_duplicates(),
        forall|x: Seq<char>|
            visible_keys(ks, m).contains(x) <==> (ks.contains(x) && m.contains_key(x)
                && m[x].value is Some),
    decreases ks.len(),
{
    if ks.len() > 0 {
        let init = ks.drop_last();
        assert(init.no_duplicates()) by {
            assert forall|i: int, j: int| 0 <= i < j < init.len() implies init[i] != init[j] by {
                assert(init[i] == ks[i] && init[j] == ks[j]);
            }
        }
        lemma_visible_keys(init, m);
        let rest = visible_keys(init, m);
        assert(!init.contains(ks.last())) by {
            if init.contains(ks.last()) {
                let i = choose|i: int| 0 <= i < init.len() && init[i] == ks.last();
                assert(ks[i] == ks[ks.len() - 1]);
            }
        }
        assert(ks =~= init.push(ks.last()));
        assert forall|x: Seq<char>| ks.contains(x) <==> (init.contains(x) || x == ks.last()) by {
            if ks.contains(x) && x != ks.last() {
                let i = choose|i: int| 0 <= i < ks.len() && ks[i] == x;
                assert(init[i] == x);
            }
            if init.contains(x) {
                let i = choose|i: int| 0 <= i < init.len() && init[i] == x;
                assert(ks[i] == x);
            }
            if x == ks.last() {
                assert(ks[ks.len() - 1] == x);
            }
        }
        if m.contains_key(ks.last()) && m[ks.last()].value is Some {
            let r = rest.push(ks.last());
            assert forall|x: Seq<char>| r.contains(x) <==> (rest.contains(x) || x == ks.last()) by {
                if r.contains(x) && x != ks.last() {
                    let i = choose|i: int| 0 <= i < r.len() && r[i] == x;
                    assert(rest[i] == x);
                }
                if rest.contains(x) {
                    let i = choose|i: int| 0 <= i < rest.len() && rest[i] == x;
                    assert(r[i] == x);
                }
                if x == ks.last() {
                    assert(r[r.len() - 1] == x);
                }
            }
            assert forall|i: int, j: int| 0 <= i < j < r.len() implies r[i] != r[j] by {
                if j == r.len() - 1 {
                    assert(rest.contains(r[i]));
                }
            }
        }
    }
}

/// LWW map keyed by strings.
#[verifier::reject_recursive_types(V)]
pub struct LwwMap<K, V> {
    entries: StrMap<LwwEntry<V>>,
    key_type: core::marker::PhantomData<K>,
}

impl<K, V> View for LwwMap<K, V> {
    type V = Map<Seq<char>, LwwEntry<V>>;

    closed spec fn view(&self) -> Map<Seq<char>, LwwEntry<V>> {
        self.entries@
    }
}

impl<V: ExactClone> LwwMap<String, V> {
    pub closed spec fn wf(&self) -> bool {
        self.entries.wf()
    }

    /// The keys in first-write order (tombstoned ones included).
    pub closed spec fn key_order(&self) -> Seq<Seq<char>> {
        self.entries.key_seq()
    }

    pub proof fn lemma_wf(&self)
        requires
            self.wf(),
        ensures
            self@.dom().finite(),
            self.key_order().no_duplicates(),
            forall|k: Seq<char>| self@.contains_key(k) <==> self.key_order().contains(k),
    {
        self.entries.lemma_wf();
    }

    pub fn new() -> (m: Self)
        ensures
            m.wf(),
            m@ == Map::<Seq<char>, LwwEntry<V>>::empty(),
    {
        LwwMap { entries: StrMap::new(), key_type: core::marker::PhantomData }
    }

    /// Writes `key`; takes effect only if `(clock, node_id)` strictly
    /// dominates the current entry.
    pub fn set(&mut self, key: String, value: V, clock: u64, node_id: &str)
        requires
            old(self).wf(),
        ensures
            final(self).wf(),
            exists|e: LwwEntry<V>|
                e.value == Some(value) && e.clock == clock && e.node_id@ == node_id@ && final(self)@
                    == lww_upsert(old(self)@, key@, e),
    {
        self.upsert(key, LwwEntry { value: Some(value), clock, node_id: node_id.to_owned() });
    }

    /// Removes `key` by writing a tombstone, under the same rule as `set`.
    pub fn remove(&mut self, key: String, clock: u64, node_id: &str)
        requires
            old(self).wf(),
        ensures
            final(self).wf(),
            exists|e: LwwEntry<V>|
                e.value is None && e.clock == clock && e.node_id@ == node_id@ && final(self)@
                    == lww_upsert(old(self)@, key@, e),
    {
        let e = LwwEntry { value: None, clock, node_id: node_id.to_owned() };
        self.upsert(key, e);
    }

    fn upsert(&mut self, key: String, candidate: LwwEntry<V>)
        requires
            old(self).wf(),
        ensures
            final(self).wf(),
            final(self)@ == lww_upsert(old(self)@, key@, candidate),
    {
        let replace = match self.entries.get(key.as_str()) {
            Some(cur) => candidate.dominates(cur),
            None => true,
        };
        if replace {
            self.entries.insert(key, candidate);
        }
    }

    /// The visible value of `key` (a tombstone reads as absent).
    pub fn get(&self, key: &String) -> (r: Option<&V>)
        ensures
            match r {
                Some(v) => visible(self@).contains_key(key@) && *v == visible(self@)[key@],
                None => !visible(self@).contains_key(key@),
            },
    {
        match self.entries.get(key.as_str()) {
            Some(e) => match &e.value {
                Some(v) => Some(v),
                None => None,
            },
            None => None,
        }
    }

    pub fn contains(&self, key: &String) -> (b: bool)
        ensures
            b == visible(self@).contains_key(key@),
    {
        self.get(key).is_some()
    }

    /// The visible entries, in first-write order of their keys.
    pub fn iter(&self) -> (r: Vec<(String, V)>)
        requires
            self.wf(),
        ensures
            r@.len() == visible_keys(self.key_order(), self@).len(),
            forall|i: int|
                0 <= i < r@.len() ==> (#[trigger] r@[i]).0@ == visible_keys(self.key_order(), self@)[i]
                    && r@[i].1 == visible(self@)[r@[i].0@],
    {
        proof {
            self.entries.lemma_wf();
        }
        let ghost ks = self.entries.key_seq();
        let mut out: Vec<(String, V)> = Vec::new();
        let n = self.entries.len();
        let mut i: usize = 0;
        while i < n
            invariant
                i <= n,
                n == ks.len(),
                ks == self.entries.key_seq(),
                self.wf(),
                forall|k: Seq<char>| self@.contains_key(k) <==> ks.contains(k),
                out@.len() == visible_keys(ks.take(i as int), self@).len(),
                forall|j: int|
                    0 <= j < out@.len() ==> (#[trigger] out@[j]).0@ == visible_keys(
                        ks.take(i as int),
                        self@,
                    )[j] && out@[j].1 == visible(self@)[out@[j].0@],
            decreases n - i,
        {
            let k = self.entries.key_at(i);
            proof {
                assert(ks[i as int] == k@);
                assert(ks.contains(k@));
                assert(ks.take(i as int + 1).drop_last() =~= ks.take(i as int));
                assert(ks.take(i as int + 1).last() == k@);
            }
            let e = self.entries.get(k.as_str()).unwrap();
            match &e.value {
                Some(v) => {
                    out.push((k.clone(), v.exact_clone()));
                },
                None => {},
            }
            i = i + 1;
        }
        proof {
            assert(ks.take(n as int) =~= ks);
        }
        out
    }

    /// Number of visible keys (tombstones are not counted).
    pub fn len(&self) -> (n: usize)
        requires
            self.wf(),
        ensures
            n == visible(self@).len(),
    {
        proof {
            self.entries.lemma_wf();
        }
        let ghost ks = self.entries.key_seq();
        let total = self.entries.len();
        let mut count: usize = 0;
        let mut i: usize = 0;
        while i < total
            invariant
                i <= total,
                total == ks.len(),
                ks == self.entries.key_seq(),
                self.wf(),
                forall|k: Seq<char>| self@.contains_key(k) <==> ks.contains(k),
                count == visible_keys(ks.take(i as int), self@).len(),
                count <= i,
            decreases total - i,
        {
            let k = self.entries.key_at(i);
            proof {
                assert(ks[i as int] == k@);
                assert(ks.contains(k@));
                assert(ks.take(i as int + 1).drop_last() =~= ks.take(i as int));
                assert(ks.take(i as int + 1).last() == k@);
            }
            let e = self.entries.get(k.as_str()).unwrap();
            if e.value.is_some() {
                count = count + 1;
            }
            i = i + 1;
        }
        proof {
            assert(ks.take(total as int) =~= ks);
            lemma_visible_keys(ks, self@);
            let vk = visible_keys(ks, self@);
            assert forall|x: Seq<char>| visible(self@).dom().contains(x) <==> vk.to_set().contains(x) by {
                assert(vk.to_set().contains(x) <==> vk.contains(x));
                assert(self.entries@.contains_key(x) <==> ks.contains(x));
                assert(vk.contains(x) <==> (ks.contains(x) && self@.contains_key(x)
                    && self@[x].value is Some));
            }
            assert(visible(self@).dom() =~= vk.to_set());
            vk.unique_seq_to_set();
        }
        count
    }

    pub fn is_empty(&self) -> (b: bool)
        requires
            self.wf(),
        ensures
            b == (visible(self@).len() == 0),
    {
        self.len() == 0
    }

    /// Per-key merge: each key keeps its LWW winner.
    pub fn merge(&self, other: &Self) -> (r: Self)
        requires
            self.wf(),
            other.wf(),
        ensures
            r.wf(),
            r@ == lww_merge(self@, other@),
    {
        proof {
            other.entries.lemma_wf();
        }
        let mut merged = self.entries.copy();
        let n = other.entries.len();
        let ghost ks = other.entries.key_seq();
        proof {
            assert(lww_merge(self@, crate::counter::restrict_keys(other@, ks.take(0))) =~= self@);
        }
        for i in 0..n
            invariant
                n == ks.len(),
                ks == other.entries.key_seq(),
                other.wf(),
                ks.no_duplicates(),
                forall|k: Seq<char>| other@.contains_key(k) <==> ks.contains(k),
                merged.wf(),
                merged@ == lww_merge(self@, crate::counter::restrict_keys(other@, ks.take(i as int))),
        {
            let k = other.entries.key_at(i);
            proof {
                assert(ks[i as int] == k@);
                assert(ks.contains(k@));
            }
            let e = other.entries.get(k.as_str()).unwrap();
            let ghost before = merged@;
            let ghost after = lww_merge(
                self@,
                crate::counter::restrict_keys(other@, ks.take(i as int + 1)),
            );
            proof {
                let t0 = ks.take(i as int);
                let t1 = ks.take(i as int + 1);
                assert(t1 =~= t0.push(k@));
                assert(!t0.contains(k@)) by {
                    if t0.contains(k@) {
                        let j = choose|j: int| 0 <= j < t0.len() && t0[j] == k@;
                        assert(ks[j] == ks[i as int]);
                    }
                }
                assert forall|x: Seq<char>| x != k@ implies (t1.contains(x) == t0.contains(x)) by {
                    if t1.contains(x) {
                        let j = choose|j: int| 0 <= j < t1.len() && t1[j] == x;
                        assert(t0[j] == x);
                    }
                    if t0.contains(x) {
                        let j = choose|j: int| 0 <= j < t0.len() && t0[j] == x;
                        assert(t1[j] == x);
                    }
                }
                assert(t1[i as int] == k@);
            }
            let replace = match merged.get(k.as_str()) {
                Some(cur) => e.dominates(cur),
                None => true,
            };
            if replace {
                merged.insert(k.clone(), e.copy());
                proof {
                    assert(merged@ =~= after);
                }
            } else {
                proof {
                    assert(before =~= after);
                }
            }
        }
        proof {
            assert(ks.take(n as int) =~= ks);
            assert(crate::counter::restrict_keys(other@, ks) =~= other@);
        }
        LwwMap { entries: merged, key_type: core::marker::PhantomData }
    }
}

/// LWW-map merge laws: idempotent and associative; commutative whenever
/// equal stamps on a key carry equal entries.
pub proof fn lww_map_merge_laws<V>(
    a: Map<Seq<char>, LwwEntry<V>>,
    b: Map<Seq<char>, LwwEntry<V>>,
    c: Map<Seq<char>, LwwEntry<V>>,
)
    ensures
        lww_merge(a, a) == a,
        lww_map_coherent(a, b) ==> lww_merge(a, b) == lww_merge(b, a),
        lww_merge(lww_merge(a, b), c) == lww_merge(a, lww_merge(b, c)),
{
    assert forall|k: Seq<char>| a.contains_key(k) implies !entry_dominates(a[k], a[k]) by {
        lemma_stamp_order(a[k].clock, a[k].node_id@, a[k].clock, a[k].node_id@, 0, Seq::empty());
    }
    assert(lww_merge(a, a) =~= a);
    if lww_map_coherent(a, b) {
        assert forall|k: Seq<char>| a.contains_key(k) && b.contains_key(k) implies (if entry_dominates(
            b[k],
            a[k],
        ) {
            b[k]
        } else {
            a[k]
        }) == (if entry_dominates(a[k], b[k]) {
            a[k]
        } else {
            b[k]
        }) by {
            lemma_stamp_order(a[k].clock, a[k].node_id@, b[k].clock, b[k].node_id@, 0, Seq::empty());
        }
        assert(lww_merge(a, b) =~= lww_merge(b, a));
    }
    assert forall|k: Seq<char>|
        a.contains_key(k) && b.contains_key(k) && c.contains_key(k) implies #[trigger] lww_merge(
        lww_merge(a, b),
        c,
    )[k] == lww_merge(a, lww_merge(b, c))[k] by {
        lemma_stamp_order(a[k].clock, a[k].node_id@, b[k].clock, b[k].node_id@, c[k].clock, c[k].node_id@);
        lemma_stamp_order(a[k].clock, a[k].node_id@, c[k].clock, c[k].node_id@, b[k].clock, b[k].node_id@);
        lemma_stamp_order(b[k].clock, b[k].node_id@, c[k].clock, c[k].node_id@, a[k].clock, a[k].node_id@);
        lemma_stamp_order(b[k].clock, b[k].node_id@, a[k].clock, a[k].node_id@, c[k].clock, c[k].node_id@);
        lemma_stamp_order(c[k].clock, c[k].node_id@, a[k].clock, a[k].node_id@, b[k].clock, b[k].node_id@);
        lemma_stamp_order(c[k].clock, c[k].node_id@, b[k].clock, b[k].node_id@, a[k].clock, a[k].node_id@);
    }
    assert(lww_merge(lww_merge(a, b), c) =~= lww_merge(a, lww_merge(b, c)));
}

/// Equal stamps on a shared key carry equal values (or are both
/// tombstones).
pub open spec fn lww_map_values_coherent<V>(a: Map<Seq<char>, LwwEntry<V>>, b: Map<Seq<char>, LwwEntry<V>>) -> bool {
    forall|k: Seq<char>|
        a.contains_key(k) && b.contains_key(k) && a[k].clock == b[k].clock && a[k].node_id@
            == b[k].node_id@ ==> a[k].value == b[k].value
}

/// The merge laws as `get`, `contains` and `len` observe a map (through
/// `visible`): merging a map with itself changes nothing, merge is
/// associative, and it is commutative whenever equal stamps on a key carry
/// equal values. For each key the merge keeps the entry of `a` or `b` with
/// the larger stamp, a tombstone competing like a value.
pub proof fn lww_map_merge_observed<V>(
    a: Map<Seq<char>, LwwEntry<V>>,
    b: Map<Seq<char>, LwwEntry<V>>,
    c: Map<Seq<char>, LwwEntry<V>>,
)
    ensures
        visible(lww_merge(a, a)) == visible(a),
        lww_map_values_coherent(a, b) ==> visible(lww_merge(a, b)) == visible(lww_merge(b, a)),
        visible(lww_merge(lww_merge(a, b), c)) == visible(lww_merge(a, lww_merge(b, c))),
        forall|k: Seq<char>|
            a.contains_key(k) && b.contains_key(k) ==> {
                let m = #[trigger] lww_merge(a, b)[k];
                &&& (m == a[k] || m == b[k])
                &&& !entry_dominates(a[k], m) && !entry_dominates(b[k], m)
            },
{
    lww_map_merge_laws(a, b, c);
    assert forall|k: Seq<char>| a.contains_key(k) && b.contains_key(k) implies {
        let m = #[trigger] lww_merge(a, b)[k];
        &&& (m == a[k] || m == b[k])
        &&& !entry_dominates(a[k], m) && !entry_dominates(b[k], m)
    } by {
        lemma_stamp_order(a[k].clock, a[k].node_id@, b[k].clock, b[k].node_id@, 0, Seq::empty());
        lemma_stamp_order(a[k].clock, a[k].node_id@, a[k].clock, a[k].node_id@, 0, Seq::empty());
        lemma_stamp_order(b[k].clock, b[k].node_id@, b[k].clock, b[k].node_id@, 0, Seq::empty());
    }
    if lww_map_values_coherent(a, b) {
        let ab = lww_merge(a, b);
        let ba = lww_merge(b, a);
        assert forall|k: Seq<char>| #[trigger] ab.contains_key(k) implies ab[k].value == ba[k].value by {
            if a.contains_key(k) && b.contains_key(k) {
                lemma_stamp_order(a[k].clock, a[k].node_id@, b[k].clock, b[k].node_id@, 0, Seq::empty());
            }
        }
        assert(visible(ab) =~= visible(ba));
    }
}

/// A write that dominates the current entry is what a read returns next;
/// a dominating removal makes the key absent.
pub proof fn lww_map_read_your_write<V>(m: Map<Seq<char>, LwwEntry<V>>, k: Seq<char>, e: LwwEntry<V>)
    requires
        !m.contains_key(k) || entry_dominates(e, m[k]),
    ensures
        e.value is Some ==> visible(lww_upsert(m, k, e)).contains_key(k) && visible(lww_upsert(m, k, e))[k]
            == e.value->0,
        e.value is None ==> !visible(lww_upsert(m, k, e)).contains_key(k),
{
}

} // verus!
