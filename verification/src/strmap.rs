//! A string-keyed map that also remembers its keys in insertion order, so
//! that it can be walked (the hash map alone offers lookups only).

use vstd::prelude::*;
use vstd::hash_map::StringHashMap;

verus! {

/// A clone that yields a value equal to its source.
pub trait ExactClone: Sized {
    fn exact_clone(&self) -> (r: Self)
        ensures
            r == *self,
    ;
}

impl ExactClone for String {
    fn exact_clone(&self) -> (r: Self) {
        self.clone()
    }
}

impl<'a> ExactClone for &'a str {
    fn exact_clone(&self) -> (r: Self) {
        *self
    }
}

impl ExactClone for u64 {
    fn exact_clone(&self) -> (r: Self) {
        *self
    }
}

impl ExactClone for i64 {
    fn exact_clone(&self) -> (r: Self) {
        *self
    }
}

impl ExactClone for u32 {
    fn exact_clone(&self) -> (r: Self) {
        *self
    }
}

impl ExactClone for i32 {
    fn exact_clone(&self) -> (r: Self) {
        *self
    }
}

impl ExactClone for bool {
    fn exact_clone(&self) -> (r: Self) {
        *self
    }
}

impl ExactClone for () {
    fn exact_clone(&self) -> (r: Self) {
        ()
    }
}

impl<A: ExactClone, B: ExactClone> ExactClone for (A, B) {
    fn exact_clone(&self) -> (r: Self) {
        (self.0.exact_clone(), self.1.exact_clone())
    }
}

impl<T: ExactClone> ExactClone for Option<T> {
    fn exact_clone(&self) -> (r: Self) {
        match self {
            Some(v) => Some(v.exact_clone()),
            None => None,
        }
    }
}

/// The distinct keys of a key list, as character sequences.
pub open spec fn key_views(keys: Seq<String>) -> Seq<Seq<char>> {
    keys.map_values(|k: String| k@)
}

/// String-keyed map with an ordered key list.
///
/// Invariant (`wf`): the key list holds every key of the map exactly once.
#[verifier::reject_recursive_types(V)]
pub struct StrMap<V> {
    map: StringHashMap<V>,
    keys: Vec<String>,
}

impl<V> View for StrMap<V> {
    type V = Map<Seq<char>, V>;

    closed spec fn view(&self) -> Map<Seq<char>, V> {
        self.map@
    }
}

impl<V> StrMap<V> {
    /// The keys in the order in which they were first inserted.
    pub closed spec fn key_seq(&self) -> Seq<Seq<char>> {
        key_views(self.keys@)
    }

    /// Well-formedness: the key list enumerates the domain without repetition.
    pub closed spec fn wf(&self) -> bool {
        &&& self.key_seq().no_duplicates()
        &&& forall|k: Seq<char>| self.map@.contains_key(k) <==> self.key_seq().contains(k)
    }

    /// Facts that callers need about a well-formed map.
    pub proof fn lemma_wf(&self)
        requires
            self.wf(),
        ensures
            self.key_seq().no_duplicates(),
            forall|k: Seq<char>| self@.contains_key(k) <==> self.key_seq().contains(k),
            self@.dom().finite(),
            self@.len() == self.key_seq().len(),
    {
        let ks = self.key_seq();
        assert(self@.dom() =~= ks.to_set());
        ks.unique_seq_to_set();
    }

    pub fn new() -> (m: Self)
        ensures
            m.wf(),
            m@ == Map::<Seq<char>, V>::empty(),
            m.key_seq() == Seq::<Seq<char>>::empty(),
    {
        let m = StrMap { map: StringHashMap::new(), keys: Vec::new() };
        assert(m.key_seq() =~= Seq::<Seq<char>>::empty());
        m
    }

    pub fn len(&self) -> (n: usize)
        requires
            self.wf(),
        ensures
            n == self@.len(),
            n == self.key_seq().len(),
    {
        proof {
            self.lemma_wf();
        }
        self.keys.len()
    }

    pub fn get(&self, k: &str) -> (r: Option<&V>)
        ensures
            match r {
                Some(v) => self@.contains_key(k@) && *v == self@[k@],
                None => !self@.contains_key(k@),
            },
    {
        self.map.get(k)
    }

    pub fn contains_key(&self, k: &str) -> (b: bool)
        ensures
            b == self@.contains_key(k@),
    {
        self.map.contains_key(k)
    }

    /// The `i`-th key in insertion order.
    pub fn key_at(&self, i: usize) -> (k: &String)
        requires
            i < self.key_seq().len(),
        ensures
            k@ == self.key_seq()[i as int],
    {
        &self.keys[i]
    }

    /// A copy with the same entries and the same key order.
    pub fn copy(&self) -> (r: Self) where V: ExactClone
        requires
            self.wf(),
        ensures
            r.wf(),
            r@ == self@,
            r.key_seq() == self.key_seq(),
    {
        let mut r: StrMap<V> = StrMap::new();
        let n = self.keys.len();
        let ghost ks = self.key_seq();
        for i in 0..n
            invariant
                n == self.keys.len(),
                ks == self.key_seq(),
                ks.len() == n,
                self.wf(),
                r.wf(),
                r.key_seq() == ks.take(i as int),
                forall|k: Seq<char>| #[trigger] r@.contains_key(k) ==> self@.contains_key(k) && r@[k] == self@[k],
        {
            let k = &self.keys[i];
            proof {
                assert(ks[i as int] == k@);
                assert(ks.contains(k@));
                assert(!ks.take(i as int).contains(k@)) by {
                    if ks.take(i as int).contains(k@) {
                        let j = choose|j: int| 0 <= j < i && ks.take(i as int)[j] == k@;
                        assert(ks[j] == ks[i as int]);
                    }
                }
                assert(ks.take(i as int + 1) =~= ks.take(i as int).push(k@));
            }
            let v = self.map.get(k.as_str()).unwrap().exact_clone();
            r.insert(k.clone(), v);
        }
        proof {
            assert(ks.take(n as int) =~= ks);
            assert(r@ =~= self@) by {
                assert forall|k: Seq<char>| r@.contains_key(k) <==> self@.contains_key(k) by {
                    assert(r.map@.contains_key(k) <==> r.key_seq().contains(k));
                    assert(self.map@.contains_key(k) <==> self.key_seq().contains(k));
                }
            }
        }
        r
    }

    /// Inserts or overwrites `k`; a new key goes to the end of the key list.
    pub fn insert(&mut self, k: String, v: V)
        requires
            old(self).wf(),
        ensures
            final(self).wf(),
            final(self)@ == old(self)@.insert(k@, v),
            old(self)@.contains_key(k@) ==> final(self).key_seq() == old(self).key_seq(),
            !old(self)@.contains_key(k@) ==> final(self).key_seq() == old(self).key_seq().push(k@),
    {
        let present = self.map.contains_key(k.as_str());
        if present {
            self.map.insert(k, v);
        } else {
            let k2 = k.clone();
            self.map.insert(k, v);
            self.keys.push(k2);
            proof {
                let ks = old(self).key_seq();
                assert(self.key_seq() =~= ks.push(k2@));
                assert(!ks.contains(k@));
                assert forall|i: int, j: int|
                    0 <= i < j < ks.push(k@).len() implies ks.push(k@)[i] != ks.push(k@)[j] by {
                    if j == ks.len() {
                        assert(ks.contains(ks[i]));
                    }
                }
                assert forall|x: Seq<char>| self.map@.contains_key(x) <==> self.key_seq().contains(x) by {
                    if x == k@ {
                        assert(self.key_seq()[ks.len() as int] == x);
                    } else if ks.contains(x) {
                        let i = choose|i: int| 0 <= i < ks.len() && ks[i] == x;
                        assert(self.key_seq()[i] == x);
                    } else if self.key_seq().contains(x) {
                        let i = choose|i: int| 0 <= i < self.key_seq().len() && self.key_seq()[i] == x;
                        assert(ks[i] == x);
                    }
                }
            }
        }
    }
}

} // verus!
