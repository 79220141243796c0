//! Observed-remove set: add-wins, removals recorded as tombstoned tags.

use vstd::prelude::*;

use crate::strmap::{ExactClone, StrMap};

verus! {

/// An element of an [`ORSet`]: identified by its text.
pub trait SetElement: ExactClone {
    spec fn elem_key(&self) -> Seq<char>;

    fn key_string(&self) -> (s: String)
        ensures
            s@ == self.elem_key(),
    ;
}

impl SetElement for String {
    open spec fn elem_key(&self) -> Seq<char> {
        self@
    }

    fn key_string(&self) -> (s: String) {
        self.clone()
    }
}

impl<'a> SetElement for &'a str {
    open spec fn elem_key(&self) -> Seq<char> {
        (*self)@
    }

    fn key_string(&self) -> (s: String) {
        (*self).to_owned()
    }
}

/// The `(element, tag)` pairs of a pair list, as text.
pub open spec fn pair_views(adds: Seq<(String, String)>) -> Seq<(Seq<char>, Seq<char>)> {
    adds.map_values(|p: (String, String)| (p.0@, p.1@))
}

/// An element is visible iff one of its tags is not tombstoned.
pub open spec fn or_visible(
    pairs: Set<(Seq<char>, Seq<char>)>,
    tomb: Set<Seq<char>>,
    k: Seq<char>,
) -> bool {
    exists|t: Seq<char>| pairs.contains((k, t)) && !tomb.contains(t)
}

/// The visible elements.
pub open spec fn or_elements(pairs: Set<(Seq<char>, Seq<char>)>, tomb: Set<Seq<char>>) -> Set<
    Seq<char>,
> {
    Set::new(|k: Seq<char>| or_visible(pairs, tomb, k))
}

/// The tags of element `k`.
pub open spec fn tags_of(pairs: Set<(Seq<char>, Seq<char>)>, k: Seq<char>) -> Set<Seq<char>> {
    Set::new(|t: Seq<char>| pairs.contains((k, t)))
}

/// Observed-remove set.
///
/// Each `add` records a `(element, tag)` pair; `remove` tombstones every tag
/// of the element seen so far. An element is present iff it has a tag that
/// is not tombstoned.
#[verifier::reject_recursive_types(T)]
pub struct ORSet<T> {
    /// element text -> the element itself (the first one added)
    reps: StrMap<T>,
    /// `(element text, tag)` pairs, each recorded once
    adds: Vec<(String, String)>,
    /// tombstoned tags
    tombstones: StrMap<()>,
}

impl<T> View for ORSet<T> {
    type V = (Set<(Seq<char>, Seq<char>)>, Set<Seq<char>>);

    closed spec fn view(&self) -> (Set<(Seq<char>, Seq<char>)>, Set<Seq<char>>) {
        (pair_views(self.adds@).to_set(), self.tombstones@.dom())
    }
}

/// The keys of `ks` (in order) that satisfy `p`.
pub open spec fn keys_where(ks: Seq<Seq<char>>, p: spec_fn(Seq<char>) -> bool) -> Seq<Seq<char>>
    decreases ks.len(),
{
    if ks.len() == 0 {
        Seq::empty()
    } else {
        let rest = keys_where(ks.drop_last(), p);
        if p(ks.last()) {
            rest.push(ks.last())
        } else {
            rest
        }
    }
}

pub proof fn lemma_keys_where(ks: Seq<Seq<char>>, p: spec_fn(Seq<char>) -> bool)
    requires
        ks.no_duplicates(),
    ensures
        keys_where(ks, p).no_duplicates(),
        forall|x: Seq<char>| keys_where(ks, p).contains(x) <==> (ks.contains(x) && p(x)),
    decreases ks.len(),
{
    if ks.len() > 0 {
        let init = ks.drop_last();
        assert(init.no_duplicates()) by {
            assert forall|i: int, j: int| 0 <= i < j < init.len() implies init[i] != init[j] by {
                assert(init[i] == ks[i] && init[j] == ks[j]);
            }
        }
        lemma_keys_where(init, p);
        let rest = keys_where(init, p);
        assert(!init.contains(ks.last())) by {
            if init.contains(ks.last()) {
                let i = choose|i: int| 0 <= i < init.len() && init[i] == ks.last();
                assert(ks[i] == ks[ks.len() - 1]);
            }
        }
        assert forall|x: Seq<char>| ks.contains(x) <==> (init.contains(x) || x == ks.last()) by {
            if ks.contains(x) && x != ks.last() {
                let i = choose|i: int| 0 <= i < ks.len() && ks[i] == x;
                assert(init[i] == x);
            }
            if init.contains(x) {
                let i = choose|i: int| 0 <= i < init.len() && init[i] == x;
                assert(ks[i] == x);
            }
            if x == ks.last() {
                assert(ks[ks.len() - 1] == x);
            }
        }
        if p(ks.last()) {
            let r = rest.push(ks.last());
            assert forall|x: Seq<char>| r.contains(x) <==> (rest.contains(x) || x == ks.last()) by {
                if r.contains(x) && x != ks.last() {
                    let i = choose|i: int| 0 <= i < r.len() && r[i] == x;
                    assert(rest[i] == x);
                }
                if rest.contains(x) {
                    let i = choose|i: int| 0 <= i < rest.len() && rest[i] == x;
                    assert(r[i] == x);
                }
                if x == ks.last() {
                    assert(r[r.len() - 1] == x);
                }
            }
            assert forall|i: int, j: int| 0 <= i < j < r.len() implies r[i] != r[j] by {
                if j == r.len() - 1 {
                    assert(rest.contains(r[i]));
                }
            }
        }
    }
}

/// The tags of element `k` among the first `n` pairs.
pub open spec fn prefix_tags(adds: Seq<(String, String)>, n: int, k: Seq<char>) -> Set<Seq<char>> {
    Set::new(|t: Seq<char>| exists|j: int| 0 <= j < n && adds[j].0@ == k && adds[j].1@ == t)
}

/// Membership of a pair among the first `n` pairs.
pub open spec fn prefix_has_pair(adds: Seq<(String, String)>, n: int, k: Seq<char>, t: Seq<char>) -> bool {
    exists|j: int| 0 <= j < n && adds[j].0@ == k && adds[j].1@ == t
}

/// Membership of a pair in the pair list.
pub open spec fn has_pair(adds: Seq<(String, String)>, k: Seq<char>, t: Seq<char>) -> bool {
    exists|i: int| 0 <= i < adds.len() && adds[i].0@ == k && adds[i].1@ == t
}

impl<T: SetElement> ORSet<T> {
    pub closed spec fn wf(&self) -> bool {
        &&& self.reps.wf()
        &&& self.tombstones.wf()
        &&& forall|k: Seq<char>, t: Seq<char>|
            has_pair(self.adds@, k, t) ==> self.reps@.contains_key(k)
        &&& forall|k: Seq<char>| #[trigger]
            self.reps@.contains_key(k) ==> self.reps@[k].elem_key() == k
    }

    /// The element kept for text `k`.
    pub closed spec fn rep(&self, k: Seq<char>) -> T {
        self.reps@[k]
    }

    /// Whether an element with text `k` has been kept.
    pub closed spec fn has_rep(&self, k: Seq<char>) -> bool {
        self.reps@.contains_key(k)
    }

    /// Element texts in first-add order.
    pub closed spec fn rep_order(&self) -> Seq<Seq<char>> {
        self.reps.key_seq()
    }

    proof fn lemma_pairs(&self)
        ensures
            forall|k: Seq<char>, t: Seq<char>|
                self@.0.contains((k, t)) <==> has_pair(self.adds@, k, t),
    {
        let pv = pair_views(self.adds@);
        assert forall|k: Seq<char>, t: Seq<char>|
            self@.0.contains((k, t)) <==> has_pair(self.adds@, k, t) by {
            if pv.to_set().contains((k, t)) {
                assert(pv.contains((k, t)));
                let i = choose|i: int| 0 <= i < pv.len() && pv[i] == (k, t);
                assert(self.adds@[i].0@ == k && self.adds@[i].1@ == t);
            }
            if has_pair(self.adds@, k, t) {
                let i = choose|i: int|
                    0 <= i < self.adds@.len() && self.adds@[i].0@ == k && self.adds@[i].1@ == t;
                assert(pv[i] == (k, t));
                assert(pv.contains((k, t)));
            }
        }
    }

    pub fn new() -> (s: Self)
        ensures
            s.wf(),
            s@.0 == Set::<(Seq<char>, Seq<char>)>::empty(),
            s@.1 == Set::<Seq<char>>::empty(),
    {
        let s = ORSet { reps: StrMap::new(), adds: Vec::new(), tombstones: StrMap::new() };
        proof {
            assert(pair_views(s.adds@) =~= Seq::<(Seq<char>, Seq<char>)>::empty());
            assert(s@.0 =~= Set::<(Seq<char>, Seq<char>)>::empty());
            assert(s@.1 =~= Set::<Seq<char>>::empty());
        }
        s
    }

    /// Whether text `k` has a tag that is not tombstoned.
    fn visible_key(&self, k: &String) -> (b: bool)
        ensures
            b == or_visible(self@.0, self@.1, k@),
    {
        proof {
            self.lemma_pairs();
        }
        let n = self.adds.len();
        let mut i: usize = 0;
        while i < n
            invariant
                i <= n,
                n == self.adds@.len(),
                forall|k2: Seq<char>, t: Seq<char>|
                    self@.0.contains((k2, t)) <==> has_pair(self.adds@, k2, t),
                forall|j: int|
                    0 <= j < i && (#[trigger] self.adds@[j]).0@ == k@ ==> self@.1.contains(
                        self.adds@[j].1@,
                    ),
            decreases n - i,
        {
            let p = &self.adds[i];
            if p.0 == *k && !self.tombstones.contains_key(p.1.as_str()) {
                proof {
                    assert(has_pair(self.adds@, k@, p.1@));
                    assert(self@.0.contains((k@, p.1@)));
                }
                return true;
            }
            i = i + 1;
        }
        proof {
            assert forall|t: Seq<char>| !(self@.0.contains((k@, t)) && !self@.1.contains(t)) by {
                if self@.0.contains((k@, t)) {
                    let j = choose|j: int|
                        0 <= j < self.adds@.len() && self.adds@[j].0@ == k@ && self.adds@[j].1@
                            == t;
                    assert(self@.1.contains(self.adds@[j].1@));
                }
            }
        }
        false
    }

    /// Adds `value` under `tag` (tags are meant to be globally unique).
    pub fn add(&mut self, value: T, tag: &str)
        requires
            old(self).wf(),
        ensures
            final(self).wf(),
            final(self)@.0 == old(self)@.0.insert((value.elem_key(), tag@)),
            final(self)@.1 == old(self)@.1,
            final(self).has_rep(value.elem_key()),
            !old(self).has_rep(value.elem_key()) ==> final(self).rep(value.elem_key()) == value,
            forall|k: Seq<char>| old(self).has_rep(k) ==> final(self).rep(k) == old(self).rep(k),
    {
        proof {
            self.lemma_pairs();
        }
        let key = value.key_string();
        let tag_s = tag.to_owned();
        let n = self.adds.len();
        let mut i: usize = 0;
        let mut found = false;
        while i < n
            invariant
                i <= n,
                n == self.adds@.len(),
                !found ==> forall|j: int|
                    0 <= j < i ==> !((#[trigger] self.adds@[j]).0@ == key@ && self.adds@[j].1@
                        == tag_s@),
                found ==> has_pair(self.adds@, key@, tag_s@),
            decreases n - i,
        {
            if self.adds[i].0 == key && self.adds[i].1 == tag_s {
                found = true;
                proof {
                    assert(self.adds@[i as int].0@ == key@ && self.adds@[i as int].1@ == tag_s@);
                }
            }
            i = i + 1;
        }
        let ghost old_adds = self.adds@;
        if !found {
            self.adds.push((key.clone(), tag_s));
            proof {
                assert(pair_views(self.adds@) =~= pair_views(old_adds).push((key@, tag@)));
            }
        }
        if !self.reps.contains_key(key.as_str()) {
            self.reps.insert(key, value);
        }
        proof {
            self.lemma_pairs();
            assert forall|k: Seq<char>, t: Seq<char>|
                has_pair(self.adds@, k, t) implies self.reps@.contains_key(k) by {
                if !found {
                    let j = choose|j: int|
                        0 <= j < self.adds@.len() && self.adds@[j].0@ == k && self.adds@[j].1@ == t;
                    if j < old_adds.len() {
                        assert(old_adds[j] == self.adds@[j]);
                        assert(has_pair(old_adds, k, t));
                    }
                }
            }
            if !found {
                assert forall|p: (Seq<char>, Seq<char>)|
                    self@.0.contains(p) <==> old(self)@.0.insert((value.elem_key(), tag@)).contains(p) by {
                    if self@.0.contains(p) {
                        let j = choose|j: int|
                            0 <= j < self.adds@.len() && self.adds@[j].0@ == p.0 && self.adds@[j].1@
                                == p.1;
                        if j < old_adds.len() {
                            assert(old_adds[j] == self.adds@[j]);
                            assert(has_pair(old_adds, p.0, p.1));
                        }
                    }
                    if old(self)@.0.contains(p) {
                        assert(has_pair(old_adds, p.0, p.1));
                        let j = choose|j: int|
                            0 <= j < old_adds.len() && old_adds[j].0@ == p.0 && old_adds[j].1@ == p.1;
                        assert(self.adds@[j] == old_adds[j]);
                        assert(has_pair(self.adds@, p.0, p.1));
                    }
                    if p == (value.elem_key(), tag@) {
                        assert(self.adds@[old_adds.len() as int].0@ == p.0);
                        assert(has_pair(self.adds@, p.0, p.1));
                    }
                }
            } else {
                assert(old(self)@.0.contains((value.elem_key(), tag@)));
            }
            assert(self@.0 =~= old(self)@.0.insert((value.elem_key(), tag@)));
        }
    }

    /// Tombstones every tag of `value` recorded so far.
    pub fn remove(&mut self, value: &T)
        requires
            old(self).wf(),
        ensures
            final(self).wf(),
            final(self)@.0 == old(self)@.0,
            final(self)@.1 == old(self)@.1.union(tags_of(old(self)@.0, value.elem_key())),
    {
        proof {
            self.lemma_pairs();
        }
        let key = value.key_string();
        let n = self.adds.len();
        let mut i: usize = 0;
        let ghost tomb0 = self.tombstones@.dom();
        proof {
            assert(prefix_tags(self.adds@, 0, key@) =~= Set::<Seq<char>>::empty());
            assert(tomb0.union(prefix_tags(self.adds@, 0, key@)) =~= tomb0);
        }
        while i < n
            invariant
                i <= n,
                n == self.adds@.len(),
                self.adds@ == old(self).adds@,
                self.reps == old(self).reps,
                self.tombstones.wf(),
                tomb0 == old(self)@.1,
                self.tombstones@.dom() == tomb0.union(prefix_tags(self.adds@, i as int, key@)),
            decreases n - i,
        {
            if self.adds[i].0 == key {
                let t = self.adds[i].1.clone();
                self.tombstones.insert(t, ());
            }
            proof {
                let adds = self.adds@;
                assert forall|t: Seq<char>|
                    #[trigger] prefix_tags(adds, i as int + 1, key@).contains(t) <==> (prefix_tags(
                        adds,
                        i as int,
                        key@,
                    ).contains(t) || (adds[i as int].0@ == key@ && adds[i as int].1@ == t)) by {
                    if prefix_tags(adds, i as int + 1, key@).contains(t) {
                        let j = choose|j: int|
                            0 <= j < i + 1 && adds[j].0@ == key@ && adds[j].1@ == t;
                        if j < i {
                            assert(prefix_tags(adds, i as int, key@).contains(t));
                        }
                    }
                    if prefix_tags(adds, i as int, key@).contains(t) {
                        let j = choose|j: int| 0 <= j < i && adds[j].0@ == key@ && adds[j].1@ == t;
                        assert(0 <= j < i + 1 && adds[j].0@ == key@ && adds[j].1@ == t);
                    }
                    if adds[i as int].0@ == key@ && adds[i as int].1@ == t {
                        assert(0 <= i < i + 1 && adds[i as int].0@ == key@ && adds[i as int].1@ == t);
                    }
                }
                assert(self.tombstones@.dom() =~= tomb0.union(
                    prefix_tags(adds, i as int + 1, key@),
                ));
            }
            i = i + 1;
        }
        proof {
            assert forall|t: Seq<char>|
                #[trigger] prefix_tags(self.adds@, n as int, key@).contains(t) <==> tags_of(
                    old(self)@.0,
                    value.elem_key(),
                ).contains(t) by {
                if tags_of(old(self)@.0, value.elem_key()).contains(t) {
                    assert(old(self)@.0.contains((key@, t)));
                    assert(has_pair(self.adds@, key@, t));
                    let j = choose|j: int|
                        0 <= j < self.adds@.len() && self.adds@[j].0@ == key@ && self.adds@[j].1@ == t;
                    assert(0 <= j < n && self.adds@[j].0@ == key@ && self.adds@[j].1@ == t);
                }
                if prefix_tags(self.adds@, n as int, key@).contains(t) {
                    let j = choose|j: int| 0 <= j < n && self.adds@[j].0@ == key@ && self.adds@[j].1@ == t;
                    assert(has_pair(old(self).adds@, key@, t));
                    assert(old(self)@.0.contains((key@, t)));
                }
            }
            assert(self@.1 =~= old(self)@.1.union(tags_of(old(self)@.0, value.elem_key())));
        }
    }

    /// Whether `value` is present.
    pub fn contains(&self, value: &T) -> (b: bool)
        ensures
            b == or_visible(self@.0, self@.1, value.elem_key()),
    {
        let key = value.key_string();
        self.visible_key(&key)
    }

    /// The present elements, in first-add order.
    pub fn elements(&self) -> (r: Vec<T>)
        requires
            self.wf(),
        ensures
            r@.map_values(|v: T| v.elem_key()) == keys_where(
                self.rep_order(),
                |k: Seq<char>| or_visible(self@.0, self@.1, k),
            ),
            forall|i: int| 0 <= i < r@.len() ==> #[trigger] r@[i] == self.rep(r@[i].elem_key()),
    {
        proof {
            self.reps.lemma_wf();
        }
        let ghost ks = self.reps.key_seq();
        let ghost p = |k: Seq<char>| or_visible(self@.0, self@.1, k);
        let n = self.reps.len();
        let mut out: Vec<T> = Vec::new();
        let mut i: usize = 0;
        while i < n
            invariant
                i <= n,
                n == ks.len(),
                ks == self.reps.key_seq(),
                p == (|k: Seq<char>| or_visible(self@.0, self@.1, k)),
                self.wf(),
                forall|k: Seq<char>| self.reps@.contains_key(k) <==> ks.contains(k),
                out@.map_values(|v: T| v.elem_key()) == keys_where(ks.take(i as int), p),
                forall|j: int| 0 <= j < out@.len() ==> #[trigger] out@[j] == self.rep(out@[j].elem_key()),
            decreases n - i,
        {
            let k = self.reps.key_at(i);
            proof {
                assert(ks[i as int] == k@);
                assert(ks.contains(k@));
                assert(ks.take(i as int + 1).drop_last() =~= ks.take(i as int));
                assert(ks.take(i as int + 1).last() == k@);
            }
            let ghost old_out = out@;
            if self.visible_key(k) {
                let v = self.reps.get(k.as_str()).unwrap().exact_clone();
                out.push(v);
                proof {
                    assert(out@.map_values(|v: T| v.elem_key()) =~= old_out.map_values(
                        |v: T| v.elem_key(),
                    ).push(k@));
                }
            }
            i = i + 1;
        }
        proof {
            assert(ks.take(n as int) =~= ks);
        }
        out
    }

    /// Number of present elements.
    pub fn len(&self) -> (n: usize)
        requires
            self.wf(),
        ensures
            n == or_elements(self@.0, self@.1).len(),
            or_elements(self@.0, self@.1).finite(),
    {
        let r = self.elements();
        proof {
            self.reps.lemma_wf();
            self.lemma_pairs();
            let ks = self.reps.key_seq();
            let p = |k: Seq<char>| or_visible(self@.0, self@.1, k);
            let kw = keys_where(ks, p);
            lemma_keys_where(ks, p);
            assert(forall|x: Seq<char>| kw.contains(x) <==> (ks.contains(x) && p(x)));
            assert forall|k: Seq<char>| or_elements(self@.0, self@.1).contains(k) <==> kw.to_set().contains(
                k,
            ) by {
                assert(kw.to_set().contains(k) <==> kw.contains(k));
                assert(p(k) == or_visible(self@.0, self@.1, k));
                assert(or_elements(self@.0, self@.1).contains(k) == or_visible(self@.0, self@.1, k));
                assert(kw.contains(k) <==> (ks.contains(k) && p(k)));
                if or_visible(self@.0, self@.1, k) {
                    let t = choose|t: Seq<char>| self@.0.contains((k, t)) && !self@.1.contains(t);
                    assert(has_pair(self.adds@, k, t));
                    assert(self.reps@.contains_key(k));
                    assert(ks.contains(k));
                }
            }
            assert(or_elements(self@.0, self@.1) =~= kw.to_set());
            kw.unique_seq_to_set();
            assert(r@.map_values(|v: T| v.elem_key()).len() == r@.len());
        }
        r.len()
    }

    pub fn is_empty(&self) -> (b: bool)
        requires
            self.wf(),
        ensures
            b == (or_elements(self@.0, self@.1).len() == 0),
    {
        self.len() == 0
    }

    /// Merge: pairs and tombstones are each unioned (add wins over a
    /// concurrent remove it did not observe).
    pub fn merge(&self, other: &Self) -> (r: Self)
        requires
            self.wf(),
            other.wf(),
        ensures
            r.wf(),
            r@.0 == self@.0.union(other@.0),
            r@.1 == self@.1.union(other@.1),
    {
        proof {
            self.lemma_pairs();
            other.lemma_pairs();
            other.tombstones.lemma_wf();
            other.reps.lemma_wf();
        }
        // reps: keep ours, add the other side's new texts
        let mut reps = self.reps.copy();
        let nr = other.reps.len();
        let ghost rks = other.reps.key_seq();
        for i in 0..nr
            invariant
                nr == rks.len(),
                rks == other.reps.key_seq(),
                other.wf(),
                forall|k: Seq<char>| other.reps@.contains_key(k) <==> rks.contains(k),
                reps.wf(),
                forall|k: Seq<char>| #[trigger]
                    reps@.contains_key(k) ==> reps@[k].elem_key() == k,
                forall|k: Seq<char>| self.reps@.contains_key(k) ==> reps@.contains_key(k),
                forall|j: int| 0 <= j < i ==> reps@.contains_key(#[trigger] rks[j]),
        {
            let k = other.reps.key_at(i);
            proof {
                assert(rks[i as int] == k@);
                assert(rks.contains(k@));
            }
            if !reps.contains_key(k.as_str()) {
                let v = other.reps.get(k.as_str()).unwrap().exact_clone();
                reps.insert(k.clone(), v);
            }
        }
        // pairs: ours, then the other side's pairs that we lack
        let mut adds: Vec<(String, String)> = Vec::new();
        for i in 0..self.adds.len()
            invariant
                adds@ == self.adds@.take(i as int),
        {
            adds.push((self.adds[i].0.clone(), self.adds[i].1.clone()));
            proof {
                assert(self.adds@.take(i as int + 1) =~= self.adds@.take(i as int).push(
                    self.adds@[i as int],
                ));
            }
        }
        proof {
            assert(self.adds@.take(self.adds@.len() as int) =~= self.adds@);
        }
        let na = other.adds.len();
        for i in 0..na
            invariant
                na == other.adds@.len(),
                forall|k: Seq<char>, t: Seq<char>|
                    #[trigger] has_pair(adds@, k, t) <==> (has_pair(self.adds@, k, t)
                        || prefix_has_pair(other.adds@, i as int, k, t)),
        {
            let p0 = &other.adds[i].0;
            let p1 = &other.adds[i].1;
            let mut found = false;
            let m = adds.len();
            let mut j: usize = 0;
            while j < m
                invariant
                    j <= m,
                    m == adds@.len(),
                    na == other.adds@.len(),
                    i < na,
                    forall|k: Seq<char>, t: Seq<char>|
                        #[trigger] has_pair(adds@, k, t) <==> (has_pair(self.adds@, k, t)
                            || prefix_has_pair(other.adds@, i as int, k, t)),
                    found ==> has_pair(adds@, p0@, p1@),
                    !found ==> forall|q: int|
                        0 <= q < j ==> !((#[trigger] adds@[q]).0@ == p0@ && adds@[q].1@ == p1@),
                decreases m - j,
            {
                if adds[j].0 == *p0 && adds[j].1 == *p1 {
                    found = true;
                    proof {
                        assert(adds@[j as int].0@ == p0@ && adds@[j as int].1@ == p1@);
                    }
                }
                j = j + 1;
            }
            let ghost before = adds@;
            if !found {
                adds.push((p0.clone(), p1.clone()));
            }
            proof {
                assert forall|k: Seq<char>, t: Seq<char>|
                    #[trigger] has_pair(adds@, k, t) == (has_pair(before, k, t) || (k == p0@ && t == p1@)) by {
                    if has_pair(adds@, k, t) {
                        let q = choose|q: int|
                            0 <= q < adds@.len() && adds@[q].0@ == k && adds@[q].1@ == t;
                        if q < before.len() {
                            assert(before[q] == adds@[q]);
                        }
                    }
                    if has_pair(before, k, t) {
                        let q = choose|q: int|
                            0 <= q < before.len() && before[q].0@ == k && before[q].1@ == t;
                        assert(adds@[q] == before[q]);
                    }
                    if k == p0@ && t == p1@ && !found {
                        assert(adds@[before.len() as int].0@ == k);
                    }
                }
                assert forall|k: Seq<char>, t: Seq<char>|
                    #[trigger] prefix_has_pair(other.adds@, i as int + 1, k, t) <==> (prefix_has_pair(
                        other.adds@,
                        i as int,
                        k,
                        t,
                    ) || (k == p0@ && t == p1@)) by {
                    if prefix_has_pair(other.adds@, i as int + 1, k, t) {
                        let q = choose|q: int|
                            0 <= q < i + 1 && other.adds@[q].0@ == k && other.adds@[q].1@ == t;
                        if q < i {
                            assert(prefix_has_pair(other.adds@, i as int, k, t));
                        }
                    }
                    if prefix_has_pair(other.adds@, i as int, k, t) {
                        let q = choose|q: int| 0 <= q < i && other.adds@[q].0@ == k && other.adds@[q].1@ == t;
                        assert(0 <= q < i + 1 && other.adds@[q].0@ == k && other.adds@[q].1@ == t);
                    }
                    if k == p0@ && t == p1@ {
                        assert(0 <= i < i + 1 && other.adds@[i as int].0@ == k && other.adds@[i as int].1@ == t);
                    }
                }
                assert forall|k: Seq<char>, t: Seq<char>|
                    #[trigger] has_pair(adds@, k, t) <==> (has_pair(self.adds@, k, t)
                        || prefix_has_pair(other.adds@, i as int + 1, k, t)) by {
                    assert(has_pair(adds@, k, t) == (has_pair(before, k, t) || (k == p0@ && t == p1@)));
                    assert(has_pair(before, k, t) <==> (has_pair(self.adds@, k, t)
                        || prefix_has_pair(other.adds@, i as int, k, t)));
                    assert(prefix_has_pair(other.adds@, i as int + 1, k, t) <==> (prefix_has_pair(
                        other.adds@,
                        i as int,
                        k,
                        t,
                    ) || (k == p0@ && t == p1@)));
                }
            }
        }
        // tombstones: union
        let mut tombstones = self.tombstones.copy();
        let nt = other.tombstones.len();
        let ghost tks = other.tombstones.key_seq();
        for i in 0..nt
            invariant
                nt == tks.len(),
                tks == other.tombstones.key_seq(),
                tombstones.wf(),
                tombstones@.dom() == self@.1.union(tks.take(i as int).to_set()),
        {
            let t = other.tombstones.key_at(i);
            tombstones.insert(t.clone(), ());
            proof {
                assert(tks.take(i as int + 1) =~= tks.take(i as int).push(t@));
                tks.take(i as int).lemma_push_to_set_commute(t@);
                assert(tombstones@.dom() =~= self@.1.union(tks.take(i as int + 1).to_set()));
            }
        }
        let r = ORSet { reps, adds, tombstones };
        proof {
            assert(tks.take(nt as int) =~= tks);
            assert forall|t: Seq<char>| tks.to_set().contains(t) <==> other@.1.contains(t) by {
                assert(other.tombstones@.contains_key(t) <==> tks.contains(t));
            }
            assert(r@.1 =~= self@.1.union(other@.1));
            r.lemma_pairs();
            assert forall|k: Seq<char>, t: Seq<char>|
                #[trigger] has_pair(other.adds@, k, t) <==> prefix_has_pair(other.adds@, na as int, k, t) by {}
            assert forall|q: (Seq<char>, Seq<char>)|
                r@.0.contains(q) <==> self@.0.union(other@.0).contains(q) by {
                assert(r@.0.contains((q.0, q.1)) <==> has_pair(r.adds@, q.0, q.1));
                assert(self@.0.contains((q.0, q.1)) <==> has_pair(self.adds@, q.0, q.1));
                assert(other@.0.contains((q.0, q.1)) <==> has_pair(other.adds@, q.0, q.1));
                assert(has_pair(other.adds@, q.0, q.1) <==> prefix_has_pair(other.adds@, na as int, q.0, q.1));
                assert(has_pair(r.adds@, q.0, q.1) <==> (has_pair(self.adds@, q.0, q.1)
                    || prefix_has_pair(other.adds@, na as int, q.0, q.1)));
            }
            assert(r@.0 =~= self@.0.union(other@.0));
            assert forall|k: Seq<char>, t: Seq<char>|
                has_pair(r.adds@, k, t) implies r.reps@.contains_key(k) by {
                if has_pair(self.adds@, k, t) {
                    assert(self.reps@.contains_key(k));
                } else {
                    assert(has_pair(r.adds@, k, t) <==> (has_pair(self.adds@, k, t)
                        || prefix_has_pair(other.adds@, na as int, k, t)));
                    assert(has_pair(other.adds@, k, t));
                    assert(other.reps@.contains_key(k));
                    assert(rks.contains(k));
                    let j = choose|j: int| 0 <= j < rks.len() && rks[j] == k;
                    assert(r.reps@.contains_key(rks[j]));
                }
            }
        }
        r
    }
}

/// OR-set merge is a join: idempotent, commutative, associative.
pub proof fn or_set_merge_laws(
    a: (Set<(Seq<char>, Seq<char>)>, Set<Seq<char>>),
    b: (Set<(Seq<char>, Seq<char>)>, Set<Seq<char>>),
    c: (Set<(Seq<char>, Seq<char>)>, Set<Seq<char>>),
)
    ensures
        a.0.union(a.0) == a.0 && a.1.union(a.1) == a.1,
        a.0.union(b.0) == b.0.union(a.0) && a.1.union(b.1) == b.1.union(a.1),
        a.0.union(b.0).union(c.0) == a.0.union(b.0.union(c.0)),
        a.1.union(b.1).union(c.1) == a.1.union(b.1.union(c.1)),
{
    assert(a.0.union(a.0) =~= a.0);
    assert(a.1.union(a.1) =~= a.1);
    assert(a.0.union(b.0) =~= b.0.union(a.0));
    assert(a.1.union(b.1) =~= b.1.union(a.1));
    assert(a.0.union(b.0).union(c.0) =~= a.0.union(b.0.union(c.0)));
    assert(a.1.union(b.1).union(c.1) =~= a.1.union(b.1.union(c.1)));
}

/// Add wins: a tag that neither side has tombstoned keeps its element
/// present after a merge.
pub proof fn or_set_add_wins(
    a: (Set<(Seq<char>, Seq<char>)>, Set<Seq<char>>),
    b: (Set<(Seq<char>, Seq<char>)>, Set<Seq<char>>),
    k: Seq<char>,
    t: Seq<char>,
)
    requires
        a.0.contains((k, t)),
        !a.1.contains(t),
        !b.1.contains(t),
    ensures
        or_visible(a.0.union(b.0), a.1.union(b.1), k),
{
    assert(a.0.union(b.0).contains((k, t)) && !a.1.union(b.1).contains(t));
}

/// After a remove the element is absent; after an add under a fresh tag it
/// is present.
pub proof fn or_set_remove_then_add(
    pairs: Set<(Seq<char>, Seq<char>)>,
    tomb: Set<Seq<char>>,
    k: Seq<char>,
    t: Seq<char>,
)
    ensures
        !or_visible(pairs, tomb.union(tags_of(pairs, k)), k),
        !tomb.contains(t) ==> or_visible(pairs.insert((k, t)), tomb, k),
{
    if or_visible(pairs, tomb.union(tags_of(pairs, k)), k) {
        let u = choose|u: Seq<char>|
            pairs.contains((k, u)) && !tomb.union(tags_of(pairs, k)).contains(u);
        assert(tags_of(pairs, k).contains(u));
    }
    if !tomb.contains(t) {
        assert(pairs.insert((k, t)).contains((k, t)));
    }
}

} // verus!
