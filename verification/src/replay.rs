//! The filter of replay queries. Every field that is set must hold.
//!
//! Root identifiers are 128-bit values; instants are `(seconds, nanoseconds)`
//! pairs since the Unix epoch, ordered first by seconds, then by
//! nanoseconds.

use vstd::prelude::*;
use crate::mesh_error::EventMeshError;
use crate::topic::{pattern_matches, segments_of, TopicPattern};

verus! {

/// An instant as seconds and nanoseconds since the Unix epoch.
pub type Instant = (i64, u32);

/// `a` lies strictly before `b`.
pub open spec fn before(a: Instant, b: Instant) -> bool {
    a.0 < b.0 || (a.0 == b.0 && a.1 < b.1)
}

/// Whether `a` lies strictly before `b`.
pub fn is_before(a: Instant, b: Instant) -> (r: bool)
    ensures
        r == before(a, b),
{
    a.0 < b.0 || (a.0 == b.0 && a.1 < b.1)
}

/// The instant in whole milliseconds since the epoch (rounded down), when
/// that fits in an `i64`.
pub open spec fn millis_spec(t: Instant) -> int {
    t.0 * 1000 + t.1 / 1_000_000
}

/// The instant in milliseconds since the epoch; `None` when that does not
/// fit in an `i64`.
pub fn millis(t: Instant) -> (r: Option<i64>)
    ensures
        match r {
            Some(m) => m == millis_spec(t),
            None => millis_spec(t) < i64::MIN || millis_spec(t) > i64::MAX,
        },
{
    let m: i128 = (t.0 as i128) * 1000 + ((t.1 / 1_000_000) as i128);
    if m < i64::MIN as i128 || m > i64::MAX as i128 {
        None
    } else {
        Some(m as i64)
    }
}

/// What a replay query selects.
#[derive(Debug, Clone)]
pub struct ReplayFilter {
    pub topic: Option<TopicPattern>,
    pub root_id: Option<u128>,
    pub since: Option<Instant>,
    pub until: Option<Instant>,
    pub limit: Option<usize>,
}

/// Whether an envelope with this topic, root and time passes every set
/// field of the filter: the pattern matches the topic, the root is the
/// root asked for, and the time lies within the inclusive bounds.
pub open spec fn admits(f: ReplayFilter, topic: Seq<char>, root_id: u128, ts: Instant) -> bool {
    &&& (f.topic matches Some(p) ==> pattern_matches(p@, segments_of(topic)))
    &&& (f.root_id matches Some(r) ==> root_id == r)
    &&& (f.since matches Some(s) ==> !before(ts, s))
    &&& (f.until matches Some(u) ==> !before(u, ts))
}

impl ReplayFilter {
    /// The filter that selects everything.
    pub fn all() -> (r: ReplayFilter)
        ensures
            r.topic is None,
            r.root_id is None,
            r.since is None,
            r.until is None,
            r.limit is None,
    {
        ReplayFilter { topic: None, root_id: None, since: None, until: None, limit: None }
    }

    /// The envelopes whose topic matches `pattern`; refused as
    /// `TopicPattern::new` refuses the pattern.
    pub fn topic(pattern: &str) -> (r: Result<ReplayFilter, EventMeshError>)
        ensures
            match r {
                Ok(f) => f.topic matches Some(p) && p@ == segments_of(pattern@) && f.root_id is None
                    && f.since is None && f.until is None && f.limit is None,
                Err(_) => !crate::topic::valid_pattern(pattern@),
            },
    {
        match TopicPattern::new(pattern) {
            Ok(p) => Ok(ReplayFilter { topic: Some(p), root_id: None, since: None, until: None, limit: None }),
            Err(e) => Err(e),
        }
    }

    /// Only envelopes of the causal tree with this root.
    pub fn with_root(self, root: u128) -> (r: ReplayFilter)
        ensures
            r == (ReplayFilter { root_id: Some(root), ..self }),
    {
        ReplayFilter { root_id: Some(root), ..self }
    }

    /// Only envelopes published at `t` or later.
    pub fn with_since(self, t: Instant) -> (r: ReplayFilter)
        ensures
            r == (ReplayFilter { since: Some(t), ..self }),
    {
        ReplayFilter { since: Some(t), ..self }
    }

    /// Only envelopes published at `t` or earlier.
    pub fn with_until(self, t: Instant) -> (r: ReplayFilter)
        ensures
            r == (ReplayFilter { until: Some(t), ..self }),
    {
        ReplayFilter { until: Some(t), ..self }
    }

    /// At most `n` envelopes.
    pub fn with_limit(self, n: usize) -> (r: ReplayFilter)
        ensures
            r == (ReplayFilter { limit: Some(n), ..self }),
    {
        ReplayFilter { limit: Some(n), ..self }
    }

    /// Whether an envelope with this topic, root and time passes the filter.
    pub fn matches(&self, topic: &str, root_id: u128, ts: Instant) -> (r: bool)
        ensures
            r == admits(*self, topic@, root_id, ts),
    {
        if let Some(pat) = &self.topic {
            if !pat.matches_str(topic) {
                return false;
            }
        }
        if let Some(root) = self.root_id {
            if root_id != root {
                return false;
            }
        }
        if let Some(since) = self.since {
            if is_before(ts, since) {
                return false;
            }
        }
        if let Some(until) = self.until {
            if is_before(until, ts) {
                return false;
            }
        }
        true
    }

    /// The topic check alone, used to prune index entries before reads.
    pub fn topic_matches(&self, topic: &str) -> (r: bool)
        ensures
            r == (self.topic matches Some(p) ==> pattern_matches(p@, segments_of(topic@))),
    {
        match &self.topic {
            None => true,
            Some(pat) => pat.matches_str(topic),
        }
    }

    /// How many index candidates a log query reads at most: the limit, when
    /// a topic is set and no root is (the candidates then already satisfy
    /// the topic check); otherwise no cap.
    pub fn candidate_cap(&self) -> (r: Option<usize>)
        ensures
            r == (if self.topic is Some && self.root_id is None { self.limit } else { None }),
    {
        if self.topic.is_some() && self.root_id.is_none() {
            self.limit
        } else {
            None
        }
    }
}

} // verus!
