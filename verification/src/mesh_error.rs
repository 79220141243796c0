//! Errors of the event mesh.

use vstd::prelude::*;
use crate::type_id::TypeId;

verus! {

/// What can go wrong in the event mesh. Messages of outside errors (JSON,
/// I/O) are carried as text.
#[derive(Debug)]
pub enum EventMeshError {
    /// A concrete topic name was rejected; the text says how.
    InvalidTopic(String),
    /// A subscription pattern was rejected; the text says how.
    InvalidPattern(String),
    /// Serialising an event failed.
    Serialize(String),
    /// The mesh is closed.
    Closed,
    /// The subscriber lagged or was dropped.
    SubscriberGone,
    /// No event store is attached to the mesh.
    NoStore,
    /// The event store reported an I/O error.
    Io(String),
    /// An event type that the registry does not know.
    UnknownType(TypeId),
    /// The payload of a registered type did not decode: type name, message.
    Deserialize(String, String),
}

} // verus!
