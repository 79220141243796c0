//! Calibration history of the metacognition bridge: the time window of a
//! query, the archive addresses of samples, and the merge of archived (cold)
//! and in-memory (hot) samples — hot samples replace archived ones with the
//! same timestamp, and the result is ordered by timestamp (stably).

use vstd::prelude::*;
use std::sync::Arc;
use crate::decimal::{dec_signed, format_i64, parse_i64, parse_i64_spec};
use crate::text::{chars_of, concat_str, str_eq, string_from_chars};
use crate::intent::ContextUri;

verus! {

broadcast use vstd::string::group_string_axioms;

/// A closed range of timestamps (nanoseconds).
#[derive(Debug, Clone, Copy, PartialEq, Eq)]
pub struct TimeWindow {
    pub from_ts: i64,
    pub to_ts: i64,
}

impl TimeWindow {
    /// Whether `ts` lies in the window, both ends included.
    pub fn contains(&self, ts: i64) -> (b: bool)
        ensures
            b == (self.from_ts <= ts && ts <= self.to_ts),
    {
        ts >= self.from_ts && ts <= self.to_ts
    }
}

/// The archive directory of an agent's prediction errors.
pub open spec fn pred_errors_dir_text(agent: Seq<char>) -> Seq<char> {
    "uwu://default/agent/"@ + agent + "/metacog/pred_errors"@
}

/// The archive directory of an agent's prediction errors.
pub fn pred_errors_dir(agent_id: &str) -> (r: ContextUri)
    ensures
        r.0@ == pred_errors_dir_text(agent_id@),
{
    let a = concat_str("uwu://default/agent/", agent_id);
    let b = concat_str(a.as_str(), "/metacog/pred_errors");
    proof {
        assert(b@ =~= pred_errors_dir_text(agent_id@));
    }
    ContextUri(b)
}

/// The archive address of the sample taken at `ts`.
pub fn sample_uri(agent_id: &str, ts: i64) -> (r: ContextUri)
    ensures
        r.0@ == pred_errors_dir_text(agent_id@) + "/"@ + dec_signed(ts as int) + ".json"@,
{
    let d = pred_errors_dir(agent_id);
    let a = concat_str(d.0.as_str(), "/");
    let t = format_i64(ts);
    let b = concat_str(a.as_str(), t.as_str());
    let c = concat_str(b.as_str(), ".json");
    proof {
        assert(c@ =~= pred_errors_dir_text(agent_id@) + "/"@ + dec_signed(ts as int) + ".json"@);
    }
    ContextUri(c)
}

/// The text after the last `/` (all of it when there is none).
pub open spec fn last_segment(s: Seq<char>) -> Seq<char>
    decreases s.len(),
{
    if s.len() == 0 {
        s
    } else if s.last() == '/' {
        Seq::empty()
    } else {
        last_segment(s.drop_last()).push(s.last())
    }
}

/// The timestamp an archived sample's address names: its last segment
/// without `.json`, read as an `i64` (a name without `.json` reads as the
/// empty text, which is no number).
pub open spec fn archived_ts(uri: Seq<char>) -> Option<i64> {
    let f = last_segment(uri);
    if f.len() >= 5 && f.skip(f.len() - 5) == ".json"@ {
        parse_i64_spec(f.take(f.len() - 5))
    } else {
        parse_i64_spec(Seq::empty())
    }
}

/// The timestamp named by an archived sample's address.
pub fn archived_ts_of(uri: &str) -> (r: Option<i64>)
    ensures
        r == archived_ts(uri@),
{
    let v = chars_of(uri);
    let mut k: usize = v.len();
    proof {
        assert(v@.take(k as int) =~= v@);
    }
    while k > 0 && v[k - 1] != '/'
        invariant
            k <= v.len(),
            v@ == uri@,
            last_segment(uri@) == last_segment(v@.take(k as int)) + v@.skip(k as int),
        decreases k,
    {
        proof {
            assert(v@.take(k as int).drop_last() =~= v@.take(k as int - 1));
            assert(v@.take(k as int - 1).push(v@[k - 1]) + v@.skip(k as int) =~= v@.take(k as int - 1) + v@.skip(k as int - 1));
            assert(last_segment(v@.take(k as int)) == last_segment(v@.take(k as int - 1)).push(v@[k - 1]));
            assert(last_segment(v@.take(k as int - 1)).push(v@[k - 1]) + v@.skip(k as int) =~= last_segment(v@.take(k as int - 1)) + v@.skip(k as int - 1));
        }
        k = k - 1;
    }
    proof {
        if k == 0 {
            assert(v@.take(0) =~= Seq::<char>::empty());
        }
        assert(last_segment(v@.take(k as int)) =~= Seq::<char>::empty());
        assert(last_segment(uri@) =~= v@.skip(k as int));
    }
    let name = string_from_chars(vstd::slice::slice_subrange(v.as_slice(), k, v.len()));
    let f = chars_of(name.as_str());
    let n = f.len();
    if n >= 5 {
        let tail = string_from_chars(vstd::slice::slice_subrange(f.as_slice(), n - 5, n));
        proof {
            assert(tail@ =~= f@.skip(n - 5));
        }
        if str_eq(tail.as_str(), ".json") {
            let stem = string_from_chars(vstd::slice::slice_subrange(f.as_slice(), 0, n - 5));
            proof {
                assert(stem@ =~= f@.take(n - 5));
            }
            return parse_i64(stem.as_str());
        }
    }
    proof {
        reveal_strlit("");
        assert(""@ =~= Seq::<char>::empty());
    }
    parse_i64("")
}

/// A sample of the merge: whether it is hot, its index in its list, and
/// its timestamp.
#[derive(Debug, Clone, Copy, PartialEq, Eq, Structural)]
pub struct SampleRef {
    pub hot: bool,
    pub index: usize,
    pub ts: i64,
}

/// The samples with a timestamp other than `ts`.
pub open spec fn without_ts(s: Seq<SampleRef>, ts: i64) -> Seq<SampleRef>
    decreases s.len(),
{
    if s.len() == 0 {
        s
    } else if s.last().ts == ts {
        without_ts(s.drop_last(), ts)
    } else {
        without_ts(s.drop_last(), ts).push(s.last())
    }
}

/// The archived samples, then each hot sample in the window in turn: a hot
/// sample whose timestamp an archived sample has first removes every sample
/// with that timestamp.
pub open spec fn merged(cold: Seq<i64>, hot: Seq<i64>, w: TimeWindow) -> Seq<SampleRef>
    decreases hot.len(),
{
    if hot.len() == 0 {
        Seq::new(cold.len(), |i: int| SampleRef { hot: false, index: i as usize, ts: cold[i] })
    } else {
        let p = merged(cold, hot.drop_last(), w);
        let t = hot.last();
        if w.from_ts <= t && t <= w.to_ts {
            let q = if cold.contains(t) { without_ts(p, t) } else { p };
            q.push(SampleRef { hot: true, index: (hot.len() - 1) as usize, ts: t })
        } else {
            p
        }
    }
}

/// Stable insertion of `x` into `s` by timestamp (after equal ones).
pub open spec fn insert_by_ts(s: Seq<SampleRef>, x: SampleRef) -> Seq<SampleRef>
    decreases s.len(),
{
    if s.len() == 0 || s.last().ts <= x.ts {
        s.push(x)
    } else {
        insert_by_ts(s.drop_last(), x).push(s.last())
    }
}

/// Stable sort by timestamp.
pub open spec fn sort_by_ts(s: Seq<SampleRef>) -> Seq<SampleRef>
    decreases s.len(),
{
    if s.len() == 0 {
        s
    } else {
        insert_by_ts(sort_by_ts(s.drop_last()), s.last())
    }
}

/// Removes the samples with timestamp `ts`.
fn drop_ts(v: Vec<SampleRef>, ts: i64) -> (r: Vec<SampleRef>)
    ensures
        r@ == without_ts(v@, ts),
{
    let mut r: Vec<SampleRef> = Vec::new();
    let mut i: usize = 0;
    proof {
        assert(v@.take(0) =~= Seq::<SampleRef>::empty());
    }
    while i < v.len()
        invariant
            i <= v.len(),
            r@ == without_ts(v@.take(i as int), ts),
        decreases v.len() - i,
    {
        proof {
            assert(v@.take(i as int + 1).drop_last() =~= v@.take(i as int));
        }
        if v[i].ts != ts {
            r.push(v[i]);
        }
        i = i + 1;
    }
    proof {
        assert(v@.take(v.len() as int) =~= v@);
    }
    r
}

/// Inserts `x` after the samples whose timestamp is not larger.
fn insert_stable(v: &mut Vec<SampleRef>, x: SampleRef)
    ensures
        final(v)@ == insert_by_ts(old(v)@, x),
{
    let mut tail: Vec<SampleRef> = Vec::new();
    let ghost orig = v@;
    while v.len() > 0 && v[v.len() - 1].ts > x.ts
        invariant
            insert_by_ts(orig, x) == insert_by_ts(v@, x) + tail@.reverse(),
        decreases v.len(),
    {
        let last = v.pop().unwrap();
        let ghost before_v = v@.push(last);
        proof {
            assert(before_v.drop_last() =~= v@);
            assert(insert_by_ts(before_v, x) == insert_by_ts(v@, x).push(last));
            assert(tail@.push(last).reverse() =~= seq![last] + tail@.reverse());
            assert(insert_by_ts(v@, x).push(last) + tail@.reverse() =~= insert_by_ts(v@, x) + tail@.push(last).reverse());
        }
        tail.push(last);
    }
    proof {
        assert(insert_by_ts(v@, x) == v@.push(x));
    }
    v.push(x);
    while tail.len() > 0
        invariant
            insert_by_ts(orig, x) == v@ + tail@.reverse(),
        decreases tail.len(),
    {
        let y = tail.pop().unwrap();
        proof {
            let t0 = tail@.push(y);
            assert(t0.reverse() =~= seq![y] + tail@.reverse());
            assert(v@ + t0.reverse() =~= v@.push(y) + tail@.reverse());
        }
        v.push(y);
    }
    proof {
        assert(v@ + tail@.reverse() =~= v@);
    }
}

/// Merges archived samples (timestamps `cold`, already limited to the
/// window) with hot ones (timestamps `hot`), ordered by timestamp (see
/// `merged` and `sort_by_ts`).
pub fn merge_calibration(cold: &Vec<i64>, hot: &Vec<i64>, window: TimeWindow) -> (r: Vec<SampleRef>)
    ensures
        r@ == sort_by_ts(merged(cold@, hot@, window)),
{
    let mut samples: Vec<SampleRef> = Vec::new();
    let mut i: usize = 0;
    while i < cold.len()
        invariant
            i <= cold.len(),
            samples@ == Seq::new(i as nat, |k: int| SampleRef { hot: false, index: k as usize, ts: cold@[k] }),
        decreases cold.len() - i,
    {
        samples.push(SampleRef { hot: false, index: i, ts: cold[i] });
        proof {
            assert(samples@ =~= Seq::new(i as nat + 1, |k: int| SampleRef { hot: false, index: k as usize, ts: cold@[k] }));
        }
        i = i + 1;
    }
    let mut j: usize = 0;
    proof {
        assert(hot@.take(0) =~= Seq::<i64>::empty());
        assert(samples@ =~= merged(cold@, hot@.take(0), window));
    }
    while j < hot.len()
        invariant
            j <= hot.len(),
            samples@ == merged(cold@, hot@.take(j as int), window),
        decreases hot.len() - j,
    {
        let t = hot[j];
        proof {
            assert(hot@.take(j as int + 1).drop_last() =~= hot@.take(j as int));
            assert(hot@.take(j as int + 1).last() == t);
        }
        if window.contains(t) {
            let mut in_cold = false;
            let mut k: usize = 0;
            while k < cold.len()
                invariant
                    k <= cold.len(),
                    in_cold == cold@.take(k as int).contains(t),
                decreases cold.len() - k,
            {
                let ghost before = in_cold;
                if cold[k] == t {
                    in_cold = true;
                }
                proof {
                    let a = cold@.take(k as int);
                    let b = cold@.take(k as int + 1);
                    assert(b =~= a.push(cold@[k as int]));
                    if b.contains(t) && !a.contains(t) {
                        let w = choose|w: int| 0 <= w < b.len() && b[w] == t;
                        if w < k {
                            assert(a[w] == t);
                        }
                    }
                    if a.contains(t) {
                        let w = choose|w: int| 0 <= w < a.len() && a[w] == t;
                        assert(b[w] == t);
                    }
                    if cold@[k as int] == t {
                        assert(b[k as int] == t);
                    }
                }
                k = k + 1;
            }
            proof {
                assert(cold@.take(cold.len() as int) =~= cold@);
            }
            if in_cold {
                samples = drop_ts(samples, t);
            }
            samples.push(SampleRef { hot: true, index: j, ts: t });
        }
        j = j + 1;
    }
    proof {
        assert(hot@.take(hot.len() as int) =~= hot@);
    }
    let ghost m = samples@;
    let mut sorted: Vec<SampleRef> = Vec::new();
    let mut q: usize = 0;
    proof {
        assert(m.take(0) =~= Seq::<SampleRef>::empty());
    }
    while q < samples.len()
        invariant
            q <= samples.len(),
            samples@ == m,
            sorted@ == sort_by_ts(m.take(q as int)),
        decreases samples.len() - q,
    {
        proof {
            assert(m.take(q as int + 1).drop_last() =~= m.take(q as int));
        }
        insert_stable(&mut sorted, samples[q]);
        q = q + 1;
    }
    proof {
        assert(m.take(m.len() as int) =~= m);
    }
    sorted
}

/// Samples ordered by timestamp.
pub open spec fn ts_sorted(s: Seq<SampleRef>) -> bool {
    forall|i: int, j: int| 0 <= i <= j < s.len() ==> s[i].ts <= s[j].ts
}

proof fn lemma_without_ts_contains(s: Seq<SampleRef>, t: i64, y: SampleRef)
    ensures
        without_ts(s, t).contains(y) <==> (s.contains(y) && y.ts != t),
    decreases s.len(),
{
    if s.len() > 0 {
        lemma_without_ts_contains(s.drop_last(), t, y);
        let p = without_ts(s.drop_last(), t);
        assert(s =~= s.drop_last().push(s.last()));
        if s.contains(y) && !s.drop_last().contains(y) {
            let k = choose|k: int| 0 <= k < s.len() && s[k] == y;
            if k < s.len() - 1 {
                assert(s.drop_last()[k] == y);
            }
        }
        if s.drop_last().contains(y) {
            let k = choose|k: int| 0 <= k < s.drop_last().len() && s.drop_last()[k] == y;
            assert(s[k] == y);
        }
        if s.last().ts != t {
            assert(p.push(s.last())[p.len() as int] == s.last());
            if p.push(s.last()).contains(y) && !p.contains(y) {
                let k = choose|k: int| 0 <= k < p.len() + 1 && p.push(s.last())[k] == y;
                if k < p.len() {
                    assert(p[k] == y);
                }
            }
            if p.contains(y) {
                let k = choose|k: int| 0 <= k < p.len() && p[k] == y;
                assert(p.push(s.last())[k] == y);
            }
        }
        if s.len() - 1 >= 0 {
            assert(s[s.len() - 1] == s.last());
        }
    }
}

proof fn lemma_insert_by_ts(s: Seq<SampleRef>, x: SampleRef)
    requires
        ts_sorted(s),
    ensures
        ts_sorted(insert_by_ts(s, x)),
        forall|y: SampleRef| #[trigger] insert_by_ts(s, x).contains(y) <==> (s.contains(y) || y == x),
    decreases s.len(),
{
    let r = insert_by_ts(s, x);
    if s.len() == 0 || s.last().ts <= x.ts {
        assert forall|y: SampleRef| #[trigger] r.contains(y) <==> (s.contains(y) || y == x) by {
            if r.contains(y) && y != x {
                let k = choose|k: int| 0 <= k < r.len() && r[k] == y;
                assert(s[k] == y);
            }
            if s.contains(y) {
                let k = choose|k: int| 0 <= k < s.len() && s[k] == y;
                assert(r[k] == y);
            }
            if y == x {
                assert(r[s.len() as int] == y);
            }
        }
    } else {
        let d = s.drop_last();
        let l = s.last();
        assert(ts_sorted(d));
        lemma_insert_by_ts(d, x);
        let p = insert_by_ts(d, x);
        assert forall|k: int| 0 <= k < p.len() implies p[k].ts <= l.ts by {
            assert(p.contains(p[k]));
            if p[k] != x {
                let w = choose|w: int| 0 <= w < d.len() && d[w] == p[k];
                assert(s[w] == d[w]);
            }
        }
        assert(r == p.push(l));
        assert forall|y: SampleRef| #[trigger] r.contains(y) <==> (s.contains(y) || y == x) by {
            if r.contains(y) {
                let k = choose|k: int| 0 <= k < r.len() && r[k] == y;
                if k < p.len() {
                    assert(p[k] == y);
                    assert(p.contains(y));
                    if y != x {
                        let w = choose|w: int| 0 <= w < d.len() && d[w] == y;
                        assert(s[w] == y);
                    }
                } else {
                    assert(s[s.len() - 1] == y);
                }
            }
            if s.contains(y) {
                let k = choose|k: int| 0 <= k < s.len() && s[k] == y;
                if k < s.len() - 1 {
                    assert(d[k] == y);
                    assert(p.contains(y));
                    let w = choose|w: int| 0 <= w < p.len() && p[w] == y;
                    assert(r[w] == y);
                } else {
                    assert(r[p.len() as int] == y);
                }
            }
            if y == x {
                assert(p.contains(x));
                let w = choose|w: int| 0 <= w < p.len() && p[w] == x;
                assert(r[w] == x);
            }
        }
    }
}

proof fn lemma_sort_by_ts(s: Seq<SampleRef>)
    ensures
        ts_sorted(sort_by_ts(s)),
        forall|y: SampleRef| #[trigger] sort_by_ts(s).contains(y) <==> s.contains(y),
    decreases s.len(),
{
    if s.len() > 0 {
        let d = s.drop_last();
        lemma_sort_by_ts(d);
        lemma_insert_by_ts(sort_by_ts(d), s.last());
        assert forall|y: SampleRef| #[trigger] sort_by_ts(s).contains(y) <==> s.contains(y) by {
            assert(sort_by_ts(d).contains(y) <==> d.contains(y));
            if d.contains(y) {
                let k = choose|k: int| 0 <= k < d.len() && d[k] == y;
                assert(s[k] == y);
            }
            if s.contains(y) {
                let k = choose|k: int| 0 <= k < s.len() && s[k] == y;
                if k < s.len() - 1 {
                    assert(d[k] == y);
                }
            }
            if y == s.last() {
                assert(s[s.len() - 1] == y);
            }
        }
    }
}

/// What `merged` keeps: archived samples are entries of `cold`, hot ones lie
/// in the window, and no archived sample shares a timestamp with a hot one
/// in the window.
pub open spec fn merge_kept(s: Seq<SampleRef>, cold: Seq<i64>, hot: Seq<i64>, w: TimeWindow) -> bool {
    forall|y: SampleRef| #[trigger] s.contains(y) ==> {
        &&& !y.hot ==> cold.contains(y.ts)
        &&& y.hot ==> w.from_ts <= y.ts <= w.to_ts
        &&& !y.hot ==> forall|j: int|
            0 <= j < hot.len() && w.from_ts <= hot[j] <= w.to_ts ==> y.ts != #[trigger] hot[j]
    }
}

proof fn lemma_merged_kept(cold: Seq<i64>, hot: Seq<i64>, w: TimeWindow)
    ensures
        merge_kept(merged(cold, hot, w), cold, hot, w),
    decreases hot.len(),
{
    let s = merged(cold, hot, w);
    if hot.len() == 0 {
        assert forall|y: SampleRef| #[trigger] s.contains(y) implies !y.hot && cold.contains(y.ts) by {
            let k = choose|k: int| 0 <= k < s.len() && s[k] == y;
            assert(cold[k] == y.ts);
        }
    } else {
        let h = hot.drop_last();
        let t = hot.last();
        lemma_merged_kept(cold, h, w);
        let p = merged(cold, h, w);
        if w.from_ts <= t && t <= w.to_ts {
            let q = if cold.contains(t) { without_ts(p, t) } else { p };
            let nx = SampleRef { hot: true, index: (hot.len() - 1) as usize, ts: t };
            assert(s == q.push(nx));
            assert forall|y: SampleRef| #[trigger] s.contains(y) implies {
                &&& !y.hot ==> cold.contains(y.ts)
                &&& y.hot ==> w.from_ts <= y.ts <= w.to_ts
                &&& !y.hot ==> forall|j: int|
                    0 <= j < hot.len() && w.from_ts <= hot[j] <= w.to_ts ==> y.ts != #[trigger] hot[j]
            } by {
                let k = choose|k: int| 0 <= k < s.len() && s[k] == y;
                if k < q.len() {
                    assert(q[k] == y);
                    assert(q.contains(y));
                    if cold.contains(t) {
                        lemma_without_ts_contains(p, t, y);
                    }
                    assert(p.contains(y));
                    if !y.hot {
                        assert forall|j: int|
                            0 <= j < hot.len() && w.from_ts <= hot[j] <= w.to_ts implies y.ts != #[trigger] hot[j] by {
                            if j < hot.len() - 1 {
                                assert(h[j] == hot[j]);
                            } else {
                                assert(hot[j] == t);
                            }
                        }
                    }
                }
            }
        } else {
            assert forall|y: SampleRef| #[trigger] s.contains(y) implies {
                &&& !y.hot ==> cold.contains(y.ts)
                &&& y.hot ==> w.from_ts <= y.ts <= w.to_ts
                &&& !y.hot ==> forall|j: int|
                    0 <= j < hot.len() && w.from_ts <= hot[j] <= w.to_ts ==> y.ts != #[trigger] hot[j]
            } by {
                assert(p.contains(y));
                if !y.hot {
                    assert forall|j: int|
                        0 <= j < hot.len() && w.from_ts <= hot[j] <= w.to_ts implies y.ts != #[trigger] hot[j] by {
                        if j < hot.len() - 1 {
                            assert(h[j] == hot[j]);
                        }
                    }
                }
            }
        }
    }
}

/// The merge of archived and hot calibration samples is ordered by
/// timestamp; its archived samples are entries of the archive, its hot
/// samples lie in the window, and no archived sample survives beside a hot
/// sample in the window with the same timestamp (hot data wins).
pub proof fn merge_calibration_laws(cold: Seq<i64>, hot: Seq<i64>, w: TimeWindow)
    ensures
        ts_sorted(sort_by_ts(merged(cold, hot, w))),
        merge_kept(sort_by_ts(merged(cold, hot, w)), cold, hot, w),
{
    let m = merged(cold, hot, w);
    lemma_sort_by_ts(m);
    lemma_merged_kept(cold, hot, w);
    assert forall|y: SampleRef| #[trigger] sort_by_ts(m).contains(y) implies m.contains(y) by {}
}

/// The horizon of an agent's state.
#[derive(Debug, Clone, Copy, PartialEq, Eq, Structural)]
pub enum StateScope {
    Short,
    Mid,
    Long,
}

/// The path segment of a state horizon.
pub open spec fn scope_segment(scope: StateScope) -> Seq<char> {
    match scope {
        StateScope::Short => "short"@,
        StateScope::Mid => "mid"@,
        StateScope::Long => "long"@,
    }
}

/// The state directory of an agent for a horizon.
pub open spec fn state_dir_text(agent: Seq<char>, scope: StateScope) -> Seq<char> {
    "uwu://default/agent/"@ + agent + "/state/"@ + scope_segment(scope)
}

/// The address of an agent's state directory for a horizon.
pub fn state_dir_uri(agent_id: &str, scope: StateScope) -> (r: ContextUri)
    ensures
        r.0@ == state_dir_text(agent_id@, scope),
{
    let seg = match scope {
        StateScope::Short => "short",
        StateScope::Mid => "mid",
        StateScope::Long => "long",
    };
    proof {
        reveal_strlit("short");
        reveal_strlit("mid");
        reveal_strlit("long");
    }
    let a = concat_str("uwu://default/agent/", agent_id);
    let b = concat_str(a.as_str(), "/state/");
    let r = concat_str(b.as_str(), seg);
    proof {
        assert(r@ =~= state_dir_text(agent_id@, scope));
    }
    ContextUri(r)
}

/// The address of the snapshot file in an agent's state directory.
pub fn snapshot_uri(agent_id: &str, scope: StateScope) -> (r: ContextUri)
    ensures
        r.0@ == state_dir_text(agent_id@, scope) + "/snapshot.json"@,
{
    let d = state_dir_uri(agent_id, scope);
    ContextUri(concat_str(d.0.as_str(), "/snapshot.json"))
}

/// What a state snapshot is compared and found by: the agent, the horizon,
/// the sequence number, the parent snapshot and the content hash (the
/// payload, the timestamp and the prediction error it also carries are
/// JSON, clock time and floating point, kept beside it by its user).
#[derive(Debug, Clone)]
pub struct StateSnapshot {
    pub agent_id: String,
    pub scope: StateScope,
    pub sequence: u64,
    pub parent_snapshot: Option<ContextUri>,
    pub state_hash: String,
}

impl StateSnapshot {
    /// Whether two snapshots hold the same content, by their hashes.
    pub fn content_eq(&self, other: &StateSnapshot) -> (b: bool)
        ensures
            b == (self.state_hash@ == other.state_hash@),
    {
        str_eq(self.state_hash.as_str(), other.state_hash.as_str())
    }

    /// The state directory of an agent for a horizon (see `state_dir_uri`).
    pub fn dir_uri(agent_id: &str, scope: StateScope) -> (r: ContextUri)
        ensures
            r.0@ == state_dir_text(agent_id@, scope),
    {
        state_dir_uri(agent_id, scope)
    }

    /// The snapshot file in that directory (see `snapshot_uri`).
    pub fn snapshot_uri(agent_id: &str, scope: StateScope) -> (r: ContextUri)
        ensures
            r.0@ == state_dir_text(agent_id@, scope) + "/snapshot.json"@,
    {
        snapshot_uri(agent_id, scope)
    }
}

/// The bridge between metacognition and the context store.
pub struct MetacogBridge<S> {
    store: Arc<S>,
}

impl<S> MetacogBridge<S> {
    /// A bridge over `store`.
    pub fn new(store: Arc<S>) -> (r: MetacogBridge<S>)
        ensures
            r.store_spec() == store,
    {
        MetacogBridge { store }
    }

    /// The store.
    pub closed spec fn store_spec(&self) -> Arc<S> {
        self.store
    }

    /// The store.
    pub fn store(&self) -> (r: &Arc<S>)
        ensures
            *r == self.store_spec(),
    {
        &self.store
    }
}

/// The bridge between agent state and the context and version stores.
pub struct StateBridge<S, V> {
    store: Arc<S>,
    versions: Arc<V>,
}

impl<S, V> StateBridge<S, V> {
    /// A bridge over `store` and `versions`.
    pub fn new(store: Arc<S>, versions: Arc<V>) -> (r: StateBridge<S, V>)
        ensures
            r.store_spec() == store,
            r.versions_spec() == versions,
    {
        StateBridge { store, versions }
    }

    /// The context store.
    pub closed spec fn store_spec(&self) -> Arc<S> {
        self.store
    }

    /// The version store.
    pub closed spec fn versions_spec(&self) -> Arc<V> {
        self.versions
    }

    /// The context store.
    pub fn store(&self) -> (r: &Arc<S>)
        ensures
            *r == self.store_spec(),
    {
        &self.store
    }
}

} // verus!
