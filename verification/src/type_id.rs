//! Namespaced event type identifiers of the form `domain.event`.

use vstd::prelude::*;
use crate::text::{chars_of, concat_str, first_index_of, lemma_first_index_at, lemma_first_index_of, string_from_chars};

verus! {

broadcast use vstd::string::group_string_axioms;

/// Fully-qualified event type name: a domain and an event within it.
#[derive(Debug, Clone, PartialEq, Eq, Hash)]
pub struct TypeId {
    /// Logical domain (e.g. `state`, `task`).
    pub domain: String,
    /// Event name within the domain (e.g. `snapshot`).
    pub event: String,
}

/// A valid name part: non-empty and free of `.`.
pub open spec fn valid_type_id_part(s: Seq<char>) -> bool {
    s.len() > 0 && !s.contains('.')
}

/// The text form `domain.event`.
pub open spec fn type_id_text(domain: Seq<char>, event: Seq<char>) -> Seq<char> {
    domain + seq!['.'] + event
}

/// What parsing `s` yields: the text before the first `.` and the text after
/// it, when there is a `.` and both sides are non-empty.
pub open spec fn parse_type_id(s: Seq<char>) -> Option<(Seq<char>, Seq<char>)> {
    let i = first_index_of(s, '.');
    if i < 0 || i == 0 || i + 1 == s.len() {
        None
    } else {
        Some((s.take(i), s.skip(i + 1)))
    }
}

impl TypeId {
    /// A type id from its two parts.
    pub fn new(domain: &str, event: &str) -> (r: TypeId)
        requires
            valid_type_id_part(domain@),
            valid_type_id_part(event@),
        ensures
            r.domain@ == domain@,
            r.event@ == event@,
    {
        TypeId { domain: domain.to_owned(), event: event.to_owned() }
    }

    /// Parses `domain.event`, splitting at the first `.`.
    pub fn parse(s: &str) -> (r: Option<TypeId>)
        ensures
            r is None <==> parse_type_id(s@) is None,
            r matches Some(t) ==> parse_type_id(s@) == Some((t.domain@, t.event@)),
    {
        let v = chars_of(s);
        let mut i: usize = 0;
        while i < v.len()
            invariant
                i <= v.len(),
                v@ == s@,
                forall|k: int| 0 <= k < i ==> v@[k] != '.',
            decreases v.len() - i,
        {
            if v[i] == '.' {
                proof {
                    lemma_first_index_at(s@, '.', i as int);
                }
                if i == 0 || i + 1 == v.len() {
                    return None;
                }
                let domain = string_from_chars(vstd::slice::slice_subrange(v.as_slice(), 0, i));
                let event = string_from_chars(vstd::slice::slice_subrange(v.as_slice(), i + 1, v.len()));
                proof {
                    assert(domain@ =~= s@.take(i as int));
                    assert(event@ =~= s@.skip(i as int + 1));
                }
                return Some(TypeId { domain, event });
            }
            i = i + 1;
        }
        proof {
            lemma_first_index_of(s@, '.');
            if s@.contains('.') {
                let j = choose|j: int| 0 <= j < s@.len() && s@[j] == '.';
                assert(v@[j] == '.');
            }
        }
        None
    }

    /// The text form `domain.event`.
    pub fn to_string(&self) -> (r: String)
        ensures
            r@ == type_id_text(self.domain@, self.event@),
    {
        let head = concat_str(self.domain.as_str(), ".");
        proof {
            reveal_strlit(".");
        }
        concat_str(head.as_str(), self.event.as_str())
    }
}

/// Parsing the text form of a type id gives back its two parts.
pub proof fn type_id_roundtrip(domain: Seq<char>, event: Seq<char>)
    requires
        valid_type_id_part(domain),
        valid_type_id_part(event),
    ensures
        parse_type_id(type_id_text(domain, event)) == Some((domain, event)),
{
    let s = type_id_text(domain, event);
    let i = domain.len() as int;
    assert(s[i] == '.');
    assert forall|k: int| 0 <= k < i implies s[k] != '.' by {
        assert(s[k] == domain[k]);
    }
    lemma_first_index_at(s, '.', i);
    assert(s.take(i) =~= domain);
    assert(s.skip(i + 1) =~= event);
}

} // verus!
