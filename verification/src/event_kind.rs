//! Event kinds: named events under a topic namespace, each with its own
//! concrete topic `namespace.name`.

use vstd::prelude::*;
use std::marker::PhantomData;
use crate::mesh_error::EventMeshError;
use crate::text::concat_str;
use crate::topic::{segments_of, topic_error_text, valid_pattern, valid_topic, Topic, TopicPattern};

verus! {

broadcast use vstd::string::group_string_axioms;

/// The topic of kind `name` under `namespace`.
pub open spec fn kind_topic(namespace: Seq<char>, name: Seq<char>) -> Seq<char> {
    namespace + seq!['.'] + name
}

/// One kind of event under a namespace; `T` is its payload type.
#[verifier::reject_recursive_types(T)]
pub struct EventKind<T> {
    namespace: String,
    name: String,
    marker: PhantomData<T>,
}

impl<T> EventKind<T> {
    /// The namespace.
    pub closed spec fn namespace_spec(&self) -> Seq<char> {
        self.namespace@
    }

    /// The kind's name.
    pub closed spec fn name_spec(&self) -> Seq<char> {
        self.name@
    }

    /// The kind's topic is a valid concrete topic.
    pub open spec fn wf(&self) -> bool {
        valid_topic(kind_topic(self.namespace_spec(), self.name_spec()))
    }

    /// Declares kind `name` under `namespace`; refused, with the topic's
    /// error, when `namespace.name` is not a valid concrete topic.
    pub fn new(namespace: &str, name: &str) -> (r: Result<EventKind<T>, EventMeshError>)
        ensures
            r is Ok <==> valid_topic(kind_topic(namespace@, name@)),
            r matches Ok(k) ==> k.wf() && k.namespace_spec() == namespace@ && k.name_spec() == name@,
            r matches Err(e) ==> (e matches EventMeshError::InvalidTopic(m) && m@ == topic_error_text(
                kind_topic(namespace@, name@),
            )),
    {
        let head = concat_str(namespace, ".");
        let full = concat_str(head.as_str(), name);
        proof {
            reveal_strlit(".");
            assert(full@ =~= kind_topic(namespace@, name@));
        }
        match Topic::validate_str(full.as_str()) {
            Ok(()) => Ok(EventKind { namespace: namespace.to_owned(), name: name.to_owned(), marker: PhantomData }),
            Err(e) => Err(e),
        }
    }

    /// The topic name `namespace.name`.
    pub fn topic_str(&self) -> (r: String)
        ensures
            r@ == kind_topic(self.namespace_spec(), self.name_spec()),
    {
        let head = concat_str(self.namespace.as_str(), ".");
        proof {
            reveal_strlit(".");
        }
        concat_str(head.as_str(), self.name.as_str())
    }

    /// The kind's topic.
    pub fn topic(&self) -> (r: Topic)
        requires
            self.wf(),
        ensures
            r@ == kind_topic(self.namespace_spec(), self.name_spec()),
    {
        let s = self.topic_str();
        Topic::from_valid(s.as_str())
    }
}

/// Whether `namespace` can hold event kinds: `namespace._validate_` is a
/// valid concrete topic.
pub fn check_namespace(namespace: &str) -> (r: Result<(), EventMeshError>)
    ensures
        r is Ok <==> valid_topic(namespace@ + "._validate_"@),
        r matches Err(e) ==> (e matches EventMeshError::InvalidTopic(m) && m@ == topic_error_text(
            namespace@ + "._validate_"@,
        )),
{
    let probe = concat_str(namespace, "._validate_");
    Topic::validate_str(probe.as_str())
}

/// The pattern `namespace.>` that receives every kind of a namespace.
pub fn namespace_pattern(namespace: &str) -> (r: Result<TopicPattern, EventMeshError>)
    ensures
        r is Ok <==> valid_pattern(namespace@ + ".>"@),
        r matches Ok(p) ==> p@ == segments_of(namespace@ + ".>"@),
{
    let text = concat_str(namespace, ".>");
    TopicPattern::new(text.as_str())
}

} // verus!
