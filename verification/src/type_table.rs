//! The table of registered event types: each type id once, with the name of
//! the payload type registered for it. Decoding itself is done by the
//! caller's per-type decoder; the table decides what is known.

use vstd::prelude::*;
use crate::mesh_error::EventMeshError;
use crate::text::str_eq;
use crate::type_id::TypeId;

verus! {

broadcast use vstd::string::group_string_axioms;

/// A type id by its views.
pub open spec fn id_view(t: TypeId) -> (Seq<char>, Seq<char>) {
    (t.domain@, t.event@)
}

/// The registered type ids and their payload type names, in order of
/// registration, each id once.
pub struct TypeTable {
    entries: Vec<(TypeId, String)>,
}

impl TypeTable {
    /// The registrations: id and type name.
    pub closed spec fn rows(&self) -> Seq<((Seq<char>, Seq<char>), Seq<char>)> {
        self.entries@.map_values(|e: (TypeId, String)| (id_view(e.0), e.1@))
    }

    /// Whether `id` is registered.
    pub open spec fn has(&self, id: (Seq<char>, Seq<char>)) -> bool {
        exists|k: int| 0 <= k < self.rows().len() && (#[trigger] self.rows()[k]).0 == id
    }

    /// Each id at most once.
    pub open spec fn wf(&self) -> bool {
        forall|a: int, b: int| 0 <= a < b < self.rows().len() ==> self.rows()[a].0 != self.rows()[b].0
    }

    /// An empty table.
    pub fn new() -> (r: TypeTable)
        ensures
            r.wf(),
            r.rows() == Seq::<((Seq<char>, Seq<char>), Seq<char>)>::empty(),
    {
        let r = TypeTable { entries: Vec::new() };
        proof {
            assert(r.rows() =~= Seq::<((Seq<char>, Seq<char>), Seq<char>)>::empty());
        }
        r
    }

    fn find(&self, id: &TypeId) -> (r: Option<usize>)
        ensures
            match r {
                Some(k) => k < self.rows().len() && self.rows()[k as int].0 == id_view(*id),
                None => !self.has(id_view(*id)),
            },
    {
        let mut k: usize = 0;
        while k < self.entries.len()
            invariant
                k <= self.entries.len(),
                forall|q: int| 0 <= q < k ==> (#[trigger] self.rows()[q]).0 != id_view(*id),
            decreases self.entries.len() - k,
        {
            proof {
                assert(self.rows()[k as int] == (id_view(self.entries@[k as int].0), self.entries@[k as int].1@));
            }
            if str_eq(self.entries[k].0.domain.as_str(), id.domain.as_str()) && str_eq(
                self.entries[k].0.event.as_str(),
                id.event.as_str(),
            ) {
                return Some(k);
            }
            k = k + 1;
        }
        None
    }

    /// Whether `id` is registered.
    pub fn is_registered(&self, id: &TypeId) -> (b: bool)
        ensures
            b == self.has(id_view(*id)),
    {
        self.find(id).is_some()
    }

    /// Registers `id` with the payload type name `payload_type`. A second
    /// registration of an id is a programming error: callers check first.
    pub fn register(&mut self, id: TypeId, payload_type: &str)
        requires
            old(self).wf(),
            !old(self).has(id_view(id)),
        ensures
            final(self).wf(),
            final(self).rows() == old(self).rows().push((id_view(id), payload_type@)),
    {
        let ghost before = self.rows();
        self.entries.push((id, payload_type.to_string()));
        proof {
            assert(self.rows() =~= before.push((id_view(id), payload_type@)));
            assert forall|a: int, b: int| 0 <= a < b < self.rows().len() implies self.rows()[a].0
                != self.rows()[b].0 by {
                if b == before.len() {
                    assert(self.rows()[a] == before[a]);
                }
            }
        }
    }

    /// The number of registered types.
    pub fn len(&self) -> (n: usize)
        ensures
            n == self.rows().len(),
    {
        self.entries.len()
    }

    /// The payload type name registered for `id`.
    pub fn payload_type_of(&self, id: &TypeId) -> (r: Option<String>)
        ensures
            match r {
                Some(n) => exists|k: int|
                    0 <= k < self.rows().len() && #[trigger] self.rows()[k] == (id_view(*id), n@),
                None => !self.has(id_view(*id)),
            },
    {
        match self.find(id) {
            Some(k) => {
                let n = self.entries[k].1.clone();
                proof {
                    assert(self.rows()[k as int] == (id_view(*id), n@));
                }
                Some(n)
            },
            None => None,
        }
    }

    /// The registered ids, in order of registration.
    pub fn registered_types(&self) -> (r: Vec<TypeId>)
        ensures
            r@.len() == self.rows().len(),
            forall|k: int| 0 <= k < r@.len() ==> id_view(#[trigger] r@[k]) == self.rows()[k].0,
    {
        let mut r: Vec<TypeId> = Vec::new();
        let mut k: usize = 0;
        while k < self.entries.len()
            invariant
                k <= self.entries.len(),
                r@.len() == k,
                forall|q: int| 0 <= q < k ==> id_view(#[trigger] r@[q]) == self.rows()[q].0,
            decreases self.entries.len() - k,
        {
            proof {
                assert(self.rows()[k as int].0 == id_view(self.entries@[k as int].0));
            }
            let t = TypeId {
                domain: self.entries[k].0.domain.clone(),
                event: self.entries[k].0.event.clone(),
            };
            r.push(t);
            k = k + 1;
        }
        r
    }

    /// The check before decoding a payload of type `id`: an unregistered
    /// id is refused with `UnknownType`.
    pub fn check_known(&self, id: &TypeId) -> (r: Result<(), EventMeshError>)
        ensures
            self.has(id_view(*id)) <==> r is Ok,
            r matches Err(e) ==> (e matches EventMeshError::UnknownType(t) && id_view(t) == id_view(*id)),
    {
        match self.find(id) {
            Some(_) => Ok(()),
            None => Err(EventMeshError::UnknownType(
                TypeId { domain: id.domain.clone(), event: id.event.clone() },
            )),
        }
    }
}

/// The error of a payload that the decoder of `id` refused with `message`.
pub fn decode_error(id: &TypeId, message: &str) -> (e: EventMeshError)
    ensures
        e matches EventMeshError::Deserialize(t, m) && t@ == crate::type_id::type_id_text(
            id.domain@,
            id.event@,
        ) && m@ == message@,
{
    EventMeshError::Deserialize(id.to_string(), message.to_string())
}

} // verus!
