//! Hierarchical, dot-separated topic names, and subscription patterns with
//! `*` (exactly one segment) and `>` (one or more trailing segments).

use vstd::prelude::*;
use crate::mesh_error::EventMeshError;
use crate::text::{
    char_vec_views, chars_of, concat_str, has_char, is_single_char, lemma_split_nonempty,
    split_chars, split_on, split_str, str_eq, str_views, string_from_chars, string_views,
};

verus! {

broadcast use vstd::string::group_string_axioms;

/// A segment that holds a wildcard character.
pub open spec fn has_wildcard(seg: Seq<char>) -> bool {
    seg.contains('*') || seg.contains('>')
}

/// The segments of a dotted name.
pub open spec fn segments_of(s: Seq<char>) -> Seq<Seq<char>> {
    split_on(s, '.')
}

/// A concrete topic: non-empty, every segment non-empty and wildcard-free.
pub open spec fn valid_topic(s: Seq<char>) -> bool {
    &&& s.len() > 0
    &&& forall|k: int|
        0 <= k < segments_of(s).len() ==> {
            &&& (#[trigger] segments_of(s)[k]).len() > 0
            &&& !has_wildcard(segments_of(s)[k])
        }
}

/// Why a segment of a concrete topic is rejected.
pub enum TopicFault {
    EmptySegment,
    Wildcard,
}

/// The first fault among the segments from index `i` on, in order.
pub open spec fn topic_fault_from(segs: Seq<Seq<char>>, i: int) -> Option<TopicFault>
    decreases segs.len() - i,
{
    if i < 0 || i >= segs.len() {
        None
    } else if segs[i].len() == 0 {
        Some(TopicFault::EmptySegment)
    } else if has_wildcard(segs[i]) {
        Some(TopicFault::Wildcard)
    } else {
        topic_fault_from(segs, i + 1)
    }
}

/// The message carried by the error for an invalid topic.
pub open spec fn topic_error_text(s: Seq<char>) -> Seq<char> {
    if s.len() == 0 {
        "empty"@
    } else {
        match topic_fault_from(segments_of(s), 0) {
            Some(TopicFault::Wildcard) => "wildcards not allowed in concrete topic: "@ + s,
            _ => s,
        }
    }
}

/// Whether `pat` matches the topic segments `topic`: `*` takes one segment,
/// `>` takes all remaining segments provided there is at least one, any
/// other segment must equal the topic segment.
pub open spec fn pattern_matches(pat: Seq<Seq<char>>, topic: Seq<Seq<char>>) -> bool
    decreases pat.len(),
{
    if pat.len() == 0 {
        topic.len() == 0
    } else if pat[0] == seq!['>'] {
        topic.len() > 0
    } else if topic.len() == 0 {
        false
    } else {
        (pat[0] == seq!['*'] || pat[0] == topic[0]) && pattern_matches(
            pat.drop_first(),
            topic.drop_first(),
        )
    }
}

/// A valid pattern: non-empty, segments non-empty, `>` only as the last
/// segment, and no wildcard character inside a longer segment.
pub open spec fn valid_pattern(s: Seq<char>) -> bool {
    &&& s.len() > 0
    &&& forall|k: int|
        0 <= k < segments_of(s).len() ==> {
            let seg = #[trigger] segments_of(s)[k];
            &&& seg.len() > 0
            &&& (seg == seq!['>'] ==> k == segments_of(s).len() - 1)
            &&& (seg != seq!['*'] && seg != seq!['>'] ==> !has_wildcard(seg))
        }
}

/// Why a segment of a pattern is rejected.
pub enum PatternFault {
    EmptySegment,
    MisplacedTail,
    Wildcard,
}

/// The first fault among the pattern segments from index `i` on.
pub open spec fn pattern_fault_from(segs: Seq<Seq<char>>, i: int) -> Option<PatternFault>
    decreases segs.len() - i,
{
    if i < 0 || i >= segs.len() {
        None
    } else if segs[i].len() == 0 {
        Some(PatternFault::EmptySegment)
    } else if segs[i] == seq!['>'] && i != segs.len() - 1 {
        Some(PatternFault::MisplacedTail)
    } else if segs[i] != seq!['*'] && segs[i] != seq!['>'] && has_wildcard(segs[i]) {
        Some(PatternFault::Wildcard)
    } else {
        pattern_fault_from(segs, i + 1)
    }
}

/// The message carried by the error for an invalid pattern.
pub open spec fn pattern_error_text(s: Seq<char>) -> Seq<char> {
    if s.len() == 0 {
        "empty"@
    } else {
        match pattern_fault_from(segments_of(s), 0) {
            Some(PatternFault::MisplacedTail) => "`>` must be the last segment: "@ + s,
            _ => s,
        }
    }
}

/// A concrete topic name (no wildcards).
#[derive(Debug, Clone, PartialEq, Eq, Hash)]
pub struct Topic(String);

impl View for Topic {
    type V = Seq<char>;

    closed spec fn view(&self) -> Seq<char> {
        self.0@
    }
}

impl Topic {
    /// Checks a raw topic name; the error says what is wrong with it.
    pub fn validate_str(s: &str) -> (r: Result<(), EventMeshError>)
        ensures
            r is Ok <==> valid_topic(s@),
            r matches Err(e) ==> (e matches EventMeshError::InvalidTopic(m) && m@
                == topic_error_text(s@)),
    {
        let chars = chars_of(s);
        if chars.len() == 0 {
            return Err(EventMeshError::InvalidTopic("empty".to_owned()));
        }
        let segs = split_chars(&chars, '.');
        let ghost sv = char_vec_views(segs@);
        let mut i: usize = 0;
        while i < segs.len()
            invariant
                i <= segs.len(),
                sv == char_vec_views(segs@),
                sv == segments_of(s@),
                s@.len() > 0,
                topic_fault_from(sv, 0) == topic_fault_from(sv, i as int),
                forall|k: int| 0 <= k < i ==> (#[trigger] sv[k]).len() > 0 && !has_wildcard(sv[k]),
            decreases segs.len() - i,
        {
            let seg = &segs[i];
            proof {
                assert(sv[i as int] == seg@);
            }
            if seg.len() == 0 {
                return Err(EventMeshError::InvalidTopic(s.to_owned()));
            }
            let star = has_char(seg, '*');
            let gt = has_char(seg, '>');
            if star || gt {
                let msg = concat_str("wildcards not allowed in concrete topic: ", s);
                return Err(EventMeshError::InvalidTopic(msg));
            }
            i = i + 1;
        }
        Ok(())
    }

    /// A topic from a name that `validate_str` accepts.
    pub fn new(name: &str) -> (r: Result<Topic, EventMeshError>)
        ensures
            r is Ok <==> valid_topic(name@),
            r matches Ok(t) ==> t@ == name@,
            r matches Err(e) ==> (e matches EventMeshError::InvalidTopic(m) && m@
                == topic_error_text(name@)),
    {
        match Topic::validate_str(name) {
            Ok(()) => Ok(Topic(name.to_owned())),
            Err(e) => Err(e),
        }
    }

    /// A topic from a name already known to be valid.
    pub(crate) fn from_valid(name: &str) -> (t: Topic)
        requires
            valid_topic(name@),
        ensures
            t@ == name@,
    {
        Topic(name.to_owned())
    }

    /// The topic name.
    pub fn as_str(&self) -> (r: &str)
        ensures
            r@ == self@,
    {
        self.0.as_str()
    }
}

/// A subscription pattern, split into segments; may hold wildcards.
#[derive(Debug, Clone, PartialEq, Eq, Hash)]
pub struct TopicPattern {
    segments: Vec<String>,
}

impl View for TopicPattern {
    type V = Seq<Seq<char>>;

    closed spec fn view(&self) -> Seq<Seq<char>> {
        string_views(self.segments@)
    }
}

impl TopicPattern {
    /// A pattern from its text; rejected unless `valid_pattern` holds.
    pub fn new(pattern: &str) -> (r: Result<TopicPattern, EventMeshError>)
        ensures
            r is Ok <==> valid_pattern(pattern@),
            r matches Ok(p) ==> p@ == segments_of(pattern@),
            r matches Err(e) ==> (e matches EventMeshError::InvalidPattern(m) && m@
                == pattern_error_text(pattern@)),
    {
        let pattern_chars = chars_of(pattern);
        if pattern_chars.len() == 0 {
            return Err(EventMeshError::InvalidPattern("empty".to_owned()));
        }
        let segs = split_str(pattern, '.');
        let ghost sv = string_views(segs@);
        let mut i: usize = 0;
        while i < segs.len()
            invariant
                i <= segs.len(),
                sv == string_views(segs@),
                sv == segments_of(pattern@),
                pattern@.len() > 0,
                pattern_fault_from(sv, 0) == pattern_fault_from(sv, i as int),
                forall|k: int|
                    0 <= k < i ==> {
                        let seg = #[trigger] sv[k];
                        &&& seg.len() > 0
                        &&& (seg == seq!['>'] ==> k == sv.len() - 1)
                        &&& (seg != seq!['*'] && seg != seq!['>'] ==> !has_wildcard(seg))
                    },
            decreases segs.len() - i,
        {
            let seg = segs[i].as_str();
            proof {
                assert(sv[i as int] == seg@);
            }
            let seg_chars = chars_of(seg);
            if seg_chars.len() == 0 {
                return Err(EventMeshError::InvalidPattern(pattern.to_owned()));
            }
            let is_tail = is_single_char(seg, '>');
            if is_tail && i != segs.len() - 1 {
                let msg = concat_str("`>` must be the last segment: ", pattern);
                return Err(EventMeshError::InvalidPattern(msg));
            }
            let is_star = is_single_char(seg, '*');
            if !is_star && !is_tail {
                let star = has_char(&seg_chars, '*');
                let gt = has_char(&seg_chars, '>');
                if star || gt {
                    return Err(EventMeshError::InvalidPattern(pattern.to_owned()));
                }
            }
            i = i + 1;
        }
        Ok(TopicPattern { segments: segs })
    }

    /// Whether the pattern matches a concrete topic.
    pub fn matches(&self, topic: &Topic) -> (r: bool)
        ensures
            r == pattern_matches(self@, segments_of(topic@)),
    {
        self.matches_str(topic.as_str())
    }

    /// Whether the pattern matches a topic given as its segments.
    pub fn matches_segments(&self, topic_segs: &[&str]) -> (r: bool)
        ensures
            r == pattern_matches(self@, str_views(topic_segs@)),
    {
        let ghost pv = self@;
        let ghost tv = str_views(topic_segs@);
        let mut i: usize = 0;
        proof {
            assert(pv.skip(0) =~= pv);
            assert(tv.skip(0) =~= tv);
        }
        while i < self.segments.len()
            invariant
                pv == self@,
                pv == string_views(self.segments@),
                tv == str_views(topic_segs@),
                i <= self.segments.len(),
                i <= topic_segs.len(),
                pattern_matches(pv, tv) == pattern_matches(pv.skip(i as int), tv.skip(i as int)),
            decreases self.segments.len() - i,
        {
            let p = self.segments[i].as_str();
            proof {
                assert(pv[i as int] == p@);
                assert(pv.skip(i as int)[0] == p@);
            }
            if is_single_char(p, '>') {
                return i < topic_segs.len();
            }
            if i >= topic_segs.len() {
                return false;
            }
            let t = topic_segs[i];
            proof {
                assert(tv[i as int] == t@);
                assert(tv.skip(i as int)[0] == t@);
                assert(pv.skip(i as int).drop_first() =~= pv.skip(i as int + 1));
                assert(tv.skip(i as int).drop_first() =~= tv.skip(i as int + 1));
            }
            if !is_single_char(p, '*') && !str_eq(p, t) {
                return false;
            }
            i = i + 1;
        }
        i == topic_segs.len()
    }

    /// Whether the pattern matches a raw topic string, split at `.`.
    pub fn matches_str(&self, topic: &str) -> (r: bool)
        ensures
            r == pattern_matches(self@, segments_of(topic@)),
    {
        let owned = split_str(topic, '.');
        let mut refs: Vec<&str> = Vec::new();
        let mut i: usize = 0;
        while i < owned.len()
            invariant
                i <= owned.len(),
                refs.len() == i,
                forall|k: int| 0 <= k < i ==> (#[trigger] refs@[k])@ == owned@[k]@,
            decreases owned.len() - i,
        {
            refs.push(owned[i].as_str());
            i = i + 1;
        }
        proof {
            assert(str_views(refs@) =~= string_views(owned@));
        }
        self.matches_segments(refs.as_slice())
    }
}


/// Whether pattern segment `p` admits topic segment `t`.
pub open spec fn segment_fits(p: Seq<char>, t: Seq<char>) -> bool {
    p == seq!['*'] || p == t
}

/// A pattern with no `>` segment matches exactly the topics of its own
/// length whose segments each fit the pattern segment at the same place.
pub proof fn pattern_without_tail_matches(p: Seq<Seq<char>>, t: Seq<Seq<char>>)
    requires
        forall|k: int| 0 <= k < p.len() ==> p[k] != seq!['>'],
    ensures
        pattern_matches(p, t) <==> (p.len() == t.len() && forall|k: int|
            0 <= k < p.len() ==> #[trigger] segment_fits(p[k], t[k])),
    decreases p.len(),
{
    if p.len() > 0 && t.len() > 0 {
        let p1 = p.drop_first();
        let t1 = t.drop_first();
        assert forall|k: int| 0 <= k < p1.len() implies p1[k] != seq!['>'] by {
            assert(p1[k] == p[k + 1]);
        }
        pattern_without_tail_matches(p1, t1);
        if pattern_matches(p, t) {
            assert forall|k: int| 0 <= k < p.len() implies #[trigger] segment_fits(p[k], t[k]) by {
                if k > 0 {
                    assert(p1[k - 1] == p[k] && t1[k - 1] == t[k]);
                    assert(segment_fits(p1[k - 1], t1[k - 1]));
                }
            }
        }
        if p.len() == t.len() && forall|k: int|
            0 <= k < p.len() ==> #[trigger] segment_fits(p[k], t[k]) {
            assert(segment_fits(p[0], t[0]));
            assert forall|k: int| 0 <= k < p1.len() implies #[trigger] segment_fits(p1[k], t1[k]) by {
                assert(p1[k] == p[k + 1] && t1[k] == t[k + 1]);
                assert(segment_fits(p[k + 1], t[k + 1]));
            }
        }
    } else if p.len() > 0 {
        assert(p[0] != seq!['>']);
    }
}

/// A pattern whose only `>` is its last segment matches exactly the topics
/// longer than the segments before it, whose leading segments each fit.
pub proof fn pattern_with_tail_matches(p: Seq<Seq<char>>, t: Seq<Seq<char>>)
    requires
        p.len() > 0,
        p.last() == seq!['>'],
        forall|k: int| 0 <= k < p.len() - 1 ==> p[k] != seq!['>'],
    ensures
        pattern_matches(p, t) <==> (t.len() >= p.len() && forall|k: int|
            0 <= k < p.len() - 1 ==> #[trigger] segment_fits(p[k], t[k])),
    decreases p.len(),
{
    if p.len() > 1 && t.len() > 0 {
        let p1 = p.drop_first();
        let t1 = t.drop_first();
        assert(p[0] != seq!['>']);
        assert(p1.last() == p.last());
        assert forall|k: int| 0 <= k < p1.len() - 1 implies p1[k] != seq!['>'] by {
            assert(p1[k] == p[k + 1]);
        }
        pattern_with_tail_matches(p1, t1);
        if pattern_matches(p, t) {
            assert forall|k: int| 0 <= k < p.len() - 1 implies #[trigger] segment_fits(p[k], t[k]) by {
                if k > 0 {
                    assert(p1[k - 1] == p[k] && t1[k - 1] == t[k]);
                    assert(segment_fits(p1[k - 1], t1[k - 1]));
                }
            }
        }
        if t.len() >= p.len() && forall|k: int|
            0 <= k < p.len() - 1 ==> #[trigger] segment_fits(p[k], t[k]) {
            assert(segment_fits(p[0], t[0]));
            assert forall|k: int| 0 <= k < p1.len() - 1 implies #[trigger] segment_fits(p1[k], t1[k]) by {
                assert(p1[k] == p[k + 1] && t1[k] == t[k + 1]);
                assert(segment_fits(p[k + 1], t[k + 1]));
            }
        }
    } else if p.len() > 1 {
        assert(p[0] != seq!['>']);
    }
}

/// A pattern without wildcard segments matches one topic only: the one
/// whose segments are its own.
pub proof fn literal_pattern_matches_only_itself(p: Seq<Seq<char>>, t: Seq<Seq<char>>)
    requires
        forall|k: int| 0 <= k < p.len() ==> p[k] != seq!['>'] && p[k] != seq!['*'],
    ensures
        pattern_matches(p, t) <==> p == t,
{
    pattern_without_tail_matches(p, t);
    if pattern_matches(p, t) {
        assert forall|k: int| 0 <= k < p.len() implies p[k] == t[k] by {
            assert(segment_fits(p[k], t[k]));
        }
        assert(p =~= t);
    }
    if p == t {
        assert forall|k: int| 0 <= k < p.len() implies #[trigger] segment_fits(p[k], t[k]) by {}
    }
}

} // verus!
