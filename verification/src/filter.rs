//! Server-side envelope filters evaluated during fan-out.
//!
//! A filter combines header tests with `And`, `Or` and `Not`. Tests that
//! need the caller's code or the JSON payload (a predicate closure, a JSON
//! pointer) are made by the caller and enter the filter as `Known` leaves.

use vstd::prelude::*;
use crate::text::str_eq;

verus! {

/// A filter over the headers of an envelope.
#[derive(Debug)]
pub enum Filter {
    /// The outcome of a test made outside the library (a predicate or a
    /// JSON-pointer test on the payload).
    Known(bool),
    /// `headers[key] == value`.
    HeaderEq { key: String, value: String },
    /// The headers hold `key`, with any value.
    HeaderExists(String),
    /// Every child matches.
    And(Vec<Filter>),
    /// At least one child matches.
    Or(Vec<Filter>),
    /// The child does not match.
    Not(Box<Filter>),
}

/// The value of the first header named `key`.
pub open spec fn header_lookup(h: Seq<(String, String)>, key: Seq<char>) -> Option<Seq<char>>
    decreases h.len(),
{
    if h.len() == 0 {
        None
    } else if h[0].0@ == key {
        Some(h[0].1@)
    } else {
        header_lookup(h.drop_first(), key)
    }
}

/// Whether a filter matches headers `h`.
pub open spec fn holds(f: Filter, h: Seq<(String, String)>) -> bool
    decreases f,
{
    match f {
        Filter::Known(b) => b,
        Filter::HeaderEq { key, value } => header_lookup(h, key@) == Some(value@),
        Filter::HeaderExists(k) => header_lookup(h, k@) is Some,
        Filter::And(xs) => all_hold(xs@, h),
        Filter::Or(xs) => any_holds(xs@, h),
        Filter::Not(x) => !holds(*x, h),
    }
}

/// Whether every filter of `xs` matches `h`.
pub open spec fn all_hold(xs: Seq<Filter>, h: Seq<(String, String)>) -> bool
    decreases xs,
{
    if xs.len() == 0 {
        true
    } else {
        holds(xs[0], h) && all_hold(xs.drop_first(), h)
    }
}

/// Whether some filter of `xs` matches `h`.
pub open spec fn any_holds(xs: Seq<Filter>, h: Seq<(String, String)>) -> bool
    decreases xs,
{
    if xs.len() == 0 {
        false
    } else {
        holds(xs[0], h) || any_holds(xs.drop_first(), h)
    }
}

/// The value of the first header named `key`, found by a scan.
pub fn header_value<'a>(headers: &'a Vec<(String, String)>, key: &str) -> (r: Option<&'a String>)
    ensures
        match r {
            Some(v) => header_lookup(headers@, key@) == Some(v@),
            None => header_lookup(headers@, key@) is None,
        },
{
    let mut i: usize = 0;
    proof {
        assert(headers@.skip(0) =~= headers@);
    }
    while i < headers.len()
        invariant
            i <= headers.len(),
            header_lookup(headers@, key@) == header_lookup(headers@.skip(i as int), key@),
        decreases headers.len() - i,
    {
        proof {
            assert(headers@.skip(i as int).drop_first() =~= headers@.skip(i + 1));
        }
        if str_eq(headers[i].0.as_str(), key) {
            return Some(&headers[i].1);
        }
        i = i + 1;
    }
    None
}

impl Filter {
    /// `headers[key] == value`.
    pub fn header(key: String, value: String) -> (r: Filter)
        ensures
            r == (Filter::HeaderEq { key, value }),
    {
        Filter::HeaderEq { key, value }
    }

    /// The headers hold `key`.
    pub fn header_exists(key: String) -> (r: Filter)
        ensures
            r == Filter::HeaderExists(key),
    {
        Filter::HeaderExists(key)
    }

    /// Every filter of `xs` matches.
    pub fn all_of(xs: Vec<Filter>) -> (r: Filter)
        ensures
            r == Filter::And(xs),
    {
        Filter::And(xs)
    }

    /// Some filter of `xs` matches.
    pub fn any_of(xs: Vec<Filter>) -> (r: Filter)
        ensures
            r == Filter::Or(xs),
    {
        Filter::Or(xs)
    }

    /// The negation of this filter.
    pub fn not(self) -> (r: Filter)
        ensures
            r == Filter::Not(Box::new(self)),
    {
        Filter::Not(Box::new(self))
    }

    /// Whether the filter matches an envelope with headers `headers`.
    pub fn matches(&self, headers: &Vec<(String, String)>) -> (r: bool)
        ensures
            r == holds(*self, headers@),
        decreases self,
    {
        match self {
            Filter::Known(b) => *b,
            Filter::HeaderEq { key, value } => match header_value(headers, key.as_str()) {
                Some(v) => str_eq(v.as_str(), value.as_str()),
                None => false,
            },
            Filter::HeaderExists(k) => header_value(headers, k.as_str()).is_some(),
            Filter::And(xs) => {
                let mut i: usize = 0;
                proof {
                    assert(xs@.skip(0) =~= xs@);
                }
                while i < xs.len()
                    invariant
                        i <= xs.len(),
                        *self == Filter::And(*xs),
                        all_hold(xs@, headers@) == all_hold(xs@.skip(i as int), headers@),
                    decreases xs.len() - i,
                {
                    proof {
                        assert(xs@.skip(i as int).drop_first() =~= xs@.skip(i + 1));
                    }
                    proof {
                        assert(decreases_to!(*self => (*self)->And_0));
                        assert(decreases_to!(*xs => xs@));
                        assert(decreases_to!(xs@ => xs@[i as int]));
                        assert(decreases_to!(*self => xs@[i as int]));
                    }
                    if !xs[i].matches(headers) {
                        return false;
                    }
                    i = i + 1;
                }
                true
            },
            Filter::Or(xs) => {
                let mut i: usize = 0;
                proof {
                    assert(xs@.skip(0) =~= xs@);
                }
                while i < xs.len()
                    invariant
                        i <= xs.len(),
                        *self == Filter::Or(*xs),
                        any_holds(xs@, headers@) == any_holds(xs@.skip(i as int), headers@),
                    decreases xs.len() - i,
                {
                    proof {
                        assert(xs@.skip(i as int).drop_first() =~= xs@.skip(i + 1));
                    }
                    proof {
                        assert(decreases_to!(*self => (*self)->Or_0));
                        assert(decreases_to!(*xs => xs@));
                        assert(decreases_to!(xs@ => xs@[i as int]));
                        assert(decreases_to!(*self => xs@[i as int]));
                    }
                    if xs[i].matches(headers) {
                        return true;
                    }
                    i = i + 1;
                }
                false
            },
            Filter::Not(x) => !x.matches(headers),
        }
    }
}

} // verus!
