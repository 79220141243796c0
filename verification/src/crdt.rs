//! The common merge interface of the state-based CRDTs.

use vstd::prelude::*;

use crate::counter::{GCounter, PNCounter};
use crate::lww_map::{lww_merge, LwwEntry, LwwMap};
use crate::lww_register::{lww_pick, LWWRegister};
use crate::mapsum::{map_total, merge_max};
use crate::or_set::{ORSet, SetElement};
use crate::strmap::ExactClone;
use crate::vector_clock::VectorClock;

verus! {

/// A replica state that can be merged with another replica of its type.
pub trait CRDTMerge: Sized + View {
    /// The state is well formed.
    spec fn crdt_wf(&self) -> bool;

    /// The merge of the two states can be represented (no counter overflows).
    spec fn can_merge(&self, other: &Self) -> bool;

    /// The state a merge produces, over the abstract views.
    spec fn join(a: Self::V, b: Self::V) -> Self::V;

    fn merge(&self, other: &Self) -> (r: Self)
        requires
            self.crdt_wf(),
            other.crdt_wf(),
            self.can_merge(other),
        ensures
            r.crdt_wf(),
            r@ == Self::join(self@, other@),
    ;
}

impl CRDTMerge for GCounter {
    open spec fn crdt_wf(&self) -> bool {
        self.wf()
    }

    open spec fn can_merge(&self, other: &Self) -> bool {
        map_total(merge_max(self@, other@)) <= u64::MAX
    }

    open spec fn join(a: Map<Seq<char>, u64>, b: Map<Seq<char>, u64>) -> Map<Seq<char>, u64> {
        merge_max(a, b)
    }

    fn merge(&self, other: &Self) -> (r: Self) {
        GCounter::merge(self, other)
    }
}

impl CRDTMerge for PNCounter {
    open spec fn crdt_wf(&self) -> bool {
        self.wf()
    }

    open spec fn can_merge(&self, other: &Self) -> bool {
        &&& map_total(merge_max(self@.0, other@.0)) <= u64::MAX
        &&& map_total(merge_max(self@.1, other@.1)) <= u64::MAX
    }

    open spec fn join(
        a: (Map<Seq<char>, u64>, Map<Seq<char>, u64>),
        b: (Map<Seq<char>, u64>, Map<Seq<char>, u64>),
    ) -> (Map<Seq<char>, u64>, Map<Seq<char>, u64>) {
        (merge_max(a.0, b.0), merge_max(a.1, b.1))
    }

    fn merge(&self, other: &Self) -> (r: Self) {
        PNCounter::merge(self, other)
    }
}

impl CRDTMerge for VectorClock {
    open spec fn crdt_wf(&self) -> bool {
        self.wf()
    }

    open spec fn can_merge(&self, other: &Self) -> bool {
        true
    }

    open spec fn join(a: Map<Seq<char>, u64>, b: Map<Seq<char>, u64>) -> Map<Seq<char>, u64> {
        merge_max(a, b)
    }

    fn merge(&self, other: &Self) -> (r: Self) {
        VectorClock::merge(self, other)
    }
}

impl<T> View for LWWRegister<T> {
    type V = LWWRegister<T>;

    open spec fn view(&self) -> LWWRegister<T> {
        *self
    }
}

impl<T: ExactClone> CRDTMerge for LWWRegister<T> {
    open spec fn crdt_wf(&self) -> bool {
        true
    }

    open spec fn can_merge(&self, other: &Self) -> bool {
        true
    }

    open spec fn join(a: LWWRegister<T>, b: LWWRegister<T>) -> LWWRegister<T> {
        lww_pick(a, b)
    }

    fn merge(&self, other: &Self) -> (r: Self) {
        LWWRegister::merge(self, other)
    }
}

impl<T: SetElement> CRDTMerge for ORSet<T> {
    open spec fn crdt_wf(&self) -> bool {
        self.wf()
    }

    open spec fn can_merge(&self, other: &Self) -> bool {
        true
    }

    open spec fn join(
        a: (Set<(Seq<char>, Seq<char>)>, Set<Seq<char>>),
        b: (Set<(Seq<char>, Seq<char>)>, Set<Seq<char>>),
    ) -> (Set<(Seq<char>, Seq<char>)>, Set<Seq<char>>) {
        (a.0.union(b.0), a.1.union(b.1))
    }

    fn merge(&self, other: &Self) -> (r: Self) {
        ORSet::merge(self, other)
    }
}

impl<V: ExactClone> CRDTMerge for LwwMap<String, V> {
    open spec fn crdt_wf(&self) -> bool {
        self.wf()
    }

    open spec fn can_merge(&self, other: &Self) -> bool {
        true
    }

    open spec fn join(a: Map<Seq<char>, LwwEntry<V>>, b: Map<Seq<char>, LwwEntry<V>>) -> Map<
        Seq<char>,
        LwwEntry<V>,
    > {
        lww_merge(a, b)
    }

    fn merge(&self, other: &Self) -> (r: Self) {
        LwwMap::merge(self, other)
    }
}

/// Merges a remote replica into a local one.
pub fn merge<T: CRDTMerge>(local: &T, remote: &T) -> (r: T)
    requires
        local.crdt_wf(),
        remote.crdt_wf(),
        local.can_merge(remote),
    ensures
        r.crdt_wf(),
        r@ == T::join(local@, remote@),
{
    local.merge(remote)
}

} // verus!
