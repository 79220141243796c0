//! Readings of a version history: the rollback point of a thrashing history
//! and the cause-effect pairs of changes whose order holds more often than
//! not.
//! A history is seen through what is read of it: each commit's message, and
//! the addresses each commit added.

use vstd::prelude::*;
use std::sync::Arc;
use crate::decimal::{dec, format_u64};
use crate::text::{concat_str, str_eq};

verus! {

broadcast use vstd::string::group_string_axioms;

/// Commit messages as texts.
pub open spec fn message_views(ms: Seq<String>) -> Seq<Seq<char>> {
    ms.map_values(|m: String| m@)
}

/// How many of the positions `1 .. k` repeat the message before them.
pub open spec fn repeat_count(ms: Seq<Seq<char>>, k: int) -> nat
    decreases k,
{
    if k <= 1 {
        0
    } else {
        repeat_count(ms, k - 1) + if ms[k - 1] == ms[k - 2] { 1nat } else { 0nat }
    }
}

/// How many of the first ten messages repeat the one before them.
pub open spec fn thrash_count(ms: Seq<Seq<char>>) -> nat {
    repeat_count(ms, if ms.len() < 10 { ms.len() as int } else { 10 })
}

/// Whether the history thrashes: at least four commits, and at least three
/// repeated messages among the first ten.
pub open spec fn thrashes(ms: Seq<Seq<char>>) -> bool {
    ms.len() >= 4 && thrash_count(ms) >= 3
}

/// Whether the rollback point of a thrashing history lies past its end.
pub open spec fn rollback_past_end(ms: Seq<Seq<char>>) -> bool {
    thrashes(ms) && thrash_count(ms) + 1 >= ms.len()
}

fn repeats_in_prefix(messages: &Vec<String>) -> (r: usize)
    ensures
        r == thrash_count(message_views(messages@)),
        r < 10,
{
    let ghost ms = message_views(messages@);
    let end: usize = if messages.len() < 10 { messages.len() } else { 10 };
    let mut count: usize = 0;
    let mut i: usize = 1;
    while i < end
        invariant
            1 <= i,
            end <= messages.len(),
            end <= 10,
            ms.len() == messages.len(),
            end == (if ms.len() < 10 { ms.len() as int } else { 10 }),
            ms == message_views(messages@),
            i <= end || (end <= 1 && i == 1),
            count == repeat_count(ms, i as int),
            count < i,
        decreases end - i,
    {
        proof {
            assert(ms[i as int] == messages@[i as int]@);
            assert(ms[i as int - 1] == messages@[i as int - 1]@);
        }
        if str_eq(messages[i].as_str(), messages[i - 1].as_str()) {
            count = count + 1;
        }
        i = i + 1;
    }
    proof {
        if end <= 1 {
            assert(repeat_count(ms, end as int) == 0);
            assert(repeat_count(ms, i as int) == 0);
        } else {
            assert(i == end);
        }
    }
    count
}

/// The position of the commit to roll back to when the history thrashes:
/// one past the number of repeated messages among the first ten, or the
/// last commit read (the oldest) when that position lies past the end of
/// the history, so that the rollback always names a logged commit.
pub fn thrash_rollback(messages: &Vec<String>) -> (r: Option<usize>)
    ensures
        thrashes(message_views(messages@)) && !rollback_past_end(message_views(messages@)) ==> r
            == Some((thrash_count(message_views(messages@)) + 1) as usize),
        rollback_past_end(message_views(messages@)) ==> r == Some((messages.len() - 1) as usize),
        !thrashes(message_views(messages@)) ==> r is None,
        r matches Some(k) ==> k < messages.len(),
{
    if messages.len() >= 4 {
        let t = repeats_in_prefix(messages);
        if t >= 3 {
            if t + 1 < messages.len() {
                return Some(t + 1);
            } else {
                return Some(messages.len() - 1);
            }
        }
    }
    None
}

/// The added addresses of each commit, as texts.
pub open spec fn adds_views(adds: Seq<Vec<String>>) -> Seq<Seq<Seq<char>>> {
    adds.map_values(|v: Vec<String>| v@.map_values(|s: String| s@))
}

/// Each address of `a` with each address of `b`, in order.
pub open spec fn cross(a: Seq<Seq<char>>, b: Seq<Seq<char>>) -> Seq<(Seq<char>, Seq<char>)>
    decreases a.len(),
{
    if a.len() == 0 {
        Seq::empty()
    } else {
        cross(a.drop_last(), b) + b.map_values(|y: Seq<char>| (a.last(), y))
    }
}

/// The ordered pairs of a window of three commits: the changes of each
/// commit with those of each later one.
pub open spec fn window_pairs(w: Seq<Seq<Seq<char>>>) -> Seq<(Seq<char>, Seq<char>)> {
    cross(w[0], w[1]) + cross(w[0], w[2]) + cross(w[1], w[2])
}

/// The pairs of every window of three consecutive commits, in order.
pub open spec fn log_pairs(adds: Seq<Seq<Seq<char>>>) -> Seq<(Seq<char>, Seq<char>)>
    decreases adds.len(),
{
    if adds.len() < 3 {
        Seq::empty()
    } else {
        log_pairs(adds.drop_last()) + window_pairs(adds.subrange(adds.len() - 3, adds.len() as int))
    }
}

/// How often `p` occurs in `s`.
pub open spec fn occ(s: Seq<(Seq<char>, Seq<char>)>, p: (Seq<char>, Seq<char>)) -> nat
    decreases s.len(),
{
    if s.len() == 0 {
        0
    } else {
        occ(s.drop_last(), p) + if s.last() == p { 1nat } else { 0nat }
    }
}

proof fn lemma_occ_le(s: Seq<(Seq<char>, Seq<char>)>, p: (Seq<char>, Seq<char>))
    ensures
        occ(s, p) <= s.len(),
    decreases s.len(),
{
    if s.len() > 0 {
        lemma_occ_le(s.drop_last(), p);
    }
}

/// A cause-effect pair of addresses and how often the effect followed the
/// cause within a window.
#[derive(Debug, Clone, PartialEq, Eq)]
pub struct PairCount {
    pub cause: String,
    pub effect: String,
    pub count: usize,
}

/// The pair of a count.
pub open spec fn pc_key(x: PairCount) -> (Seq<char>, Seq<char>) {
    (x.cause@, x.effect@)
}


/// Pair views of exec pairs.
pub open spec fn pairs_view(v: Seq<(String, String)>) -> Seq<(Seq<char>, Seq<char>)> {
    v.map_values(|e: (String, String)| (e.0@, e.1@))
}

fn push_cross(out: &mut Vec<(String, String)>, a: &Vec<String>, b: &Vec<String>)
    ensures
        pairs_view(final(out)@) == pairs_view(old(out)@) + cross(
            a@.map_values(|s: String| s@),
            b@.map_values(|s: String| s@),
        ),
{
    let ghost av = a@.map_values(|s: String| s@);
    let ghost bv = b@.map_values(|s: String| s@);
    let ghost start = pairs_view(out@);
    let mut x: usize = 0;
    proof {
        assert(av.take(0) =~= Seq::<Seq<char>>::empty());
        assert(start + cross(av.take(0), bv) =~= start);
    }
    while x < a.len()
        invariant
            x <= a.len(),
            av == a@.map_values(|s: String| s@),
            bv == b@.map_values(|s: String| s@),
            pairs_view(out@) == start + cross(av.take(x as int), bv),
        decreases a.len() - x,
    {
        let ghost row_start = pairs_view(out@);
        let mut y: usize = 0;
        proof {
            assert(row_start + bv.take(0).map_values(|z: Seq<char>| (av[x as int], z)) =~= row_start);
        }
        while y < b.len()
            invariant
                x < a.len(),
                y <= b.len(),
                av == a@.map_values(|s: String| s@),
                bv == b@.map_values(|s: String| s@),
                pairs_view(out@) == row_start + bv.take(y as int).map_values(
                    |z: Seq<char>| (av[x as int], z),
                ),
            decreases b.len() - y,
        {
            let ghost before = out@;
            out.push((a[x].clone(), b[y].clone()));
            proof {
                assert(pairs_view(out@) =~= pairs_view(before).push((av[x as int], bv[y as int])));
                assert(bv.take(y as int + 1).map_values(|z: Seq<char>| (av[x as int], z))
                    =~= bv.take(y as int).map_values(|z: Seq<char>| (av[x as int], z)).push(
                    (av[x as int], bv[y as int]),
                ));
            }
            y = y + 1;
        }
        proof {
            assert(bv.take(b.len() as int) =~= bv);
            let ax = av.take(x as int + 1);
            assert(ax.drop_last() =~= av.take(x as int));
            assert(ax.last() == av[x as int]);
            assert(cross(ax, bv) == cross(av.take(x as int), bv) + bv.map_values(
                |z: Seq<char>| (av[x as int], z),
            ));
            assert(start + cross(ax, bv) =~= start + cross(av.take(x as int), bv) + bv.map_values(
                |z: Seq<char>| (av[x as int], z),
            ));
        }
        x = x + 1;
    }
    proof {
        assert(av.take(a.len() as int) =~= av);
    }
}

/// The pairs of every window of three consecutive commits (see
/// `log_pairs`).
pub fn window_pair_list(adds: &Vec<Vec<String>>) -> (r: Vec<(String, String)>)
    ensures
        pairs_view(r@) == log_pairs(adds_views(adds@)),
{
    let ghost av = adds_views(adds@);
    let mut out: Vec<(String, String)> = Vec::new();
    let n = adds.len();
    if n < 3 {
        proof {
            assert(pairs_view(out@) =~= Seq::<(Seq<char>, Seq<char>)>::empty());
        }
        return out;
    }
    let mut w: usize = 0;
    proof {
        assert(log_pairs(av.take(2)) == Seq::<(Seq<char>, Seq<char>)>::empty());
        assert(pairs_view(out@) =~= Seq::<(Seq<char>, Seq<char>)>::empty());
    }
    while w + 2 < n
        invariant
            n == adds.len(),
            n >= 3,
            w + 2 <= n,
            av == adds_views(adds@),
            pairs_view(out@) == log_pairs(av.take(w as int + 2)),
        decreases n - w,
    {
        proof {
            assert(av[w as int] == adds@[w as int]@.map_values(|s: String| s@));
            assert(av[w as int + 1] == adds@[w as int + 1]@.map_values(|s: String| s@));
            assert(av[w as int + 2] == adds@[w as int + 2]@.map_values(|s: String| s@));
        }
        push_cross(&mut out, &adds[w], &adds[w + 1]);
        push_cross(&mut out, &adds[w], &adds[w + 2]);
        push_cross(&mut out, &adds[w + 1], &adds[w + 2]);
        proof {
            let t = av.take(w as int + 3);
            assert(t.drop_last() =~= av.take(w as int + 2));
            let win = t.subrange(t.len() - 3, t.len() as int);
            assert(win[0] == av[w as int]);
            assert(win[1] == av[w as int + 1]);
            assert(win[2] == av[w as int + 2]);
            assert(log_pairs(t) == log_pairs(av.take(w as int + 2)) + window_pairs(win));
            assert(pairs_view(out@) =~= log_pairs(t));
        }
        w = w + 1;
    }
    proof {
        assert(av.take(n as int) =~= av);
    }
    out
}

/// Counts of pairs: keys distinct, each with its number of occurrences in
/// `s`, and every pair of `s` present.
pub open spec fn tally_of(t: Seq<PairCount>, s: Seq<(Seq<char>, Seq<char>)>) -> bool {
    &&& forall|a: int, b: int| 0 <= a < b < t.len() ==> pc_key(t[a]) != pc_key(t[b])
    &&& forall|k: int| 0 <= k < t.len() ==> (#[trigger] t[k]).count == occ(s, pc_key(t[k]))
    &&& forall|p: (Seq<char>, Seq<char>)|
        occ(s, p) > 0 ==> exists|k: int| 0 <= k < t.len() && pc_key(#[trigger] t[k]) == p
}

fn tally(pairs: &Vec<(String, String)>) -> (t: Vec<PairCount>)
    ensures
        tally_of(t@, pairs_view(pairs@)),
{
    let ghost pv = pairs_view(pairs@);
    let mut t: Vec<PairCount> = Vec::new();
    let mut i: usize = 0;
    proof {
        assert(pv.take(0) =~= Seq::<(Seq<char>, Seq<char>)>::empty());
    }
    while i < pairs.len()
        invariant
            i <= pairs.len(),
            pv == pairs_view(pairs@),
            tally_of(t@, pv.take(i as int)),
        decreases pairs.len() - i,
    {
        let ghost p = pv.take(i as int);
        let ghost e = pv[i as int];
        proof {
            assert(pv.take(i as int + 1).drop_last() =~= p);
            assert(pv.take(i as int + 1).last() == e);
            assert(e == (pairs@[i as int].0@, pairs@[i as int].1@));
        }
        let mut k: usize = 0;
        let mut found = false;
        while !found && k < t.len()
            invariant
                k <= t.len(),
                i < pairs.len(),
                found ==> k < t.len() && pc_key(t@[k as int]) == e,
                !found ==> forall|q: int| 0 <= q < k ==> pc_key(#[trigger] t@[q]) != e,
                e == (pairs@[i as int].0@, pairs@[i as int].1@),
            decreases t.len() - k + (if found { 0int } else { 1int }),
        {
            if str_eq(t[k].cause.as_str(), pairs[i].0.as_str()) && str_eq(
                t[k].effect.as_str(),
                pairs[i].1.as_str(),
            ) {
                found = true;
            } else {
                k = k + 1;
            }
        }
        if found {
            proof {
                assert(pc_key(t@[k as int]) == e);
                assert(t@[k as int].count == occ(p, e));
                lemma_occ_le(p, e);
            }
            let ghost old_t = t@;
            let c = PairCount {
                cause: t[k].cause.clone(),
                effect: t[k].effect.clone(),
                count: t[k].count + 1,
            };
            t.set(k, c);
            proof {
                let np = pv.take(i as int + 1);
                assert forall|a: int, b: int| 0 <= a < b < t@.len() implies pc_key(t@[a]) != pc_key(
                    t@[b],
                ) by {
                    assert(pc_key(t@[a]) == pc_key(old_t[a]));
                    assert(pc_key(t@[b]) == pc_key(old_t[b]));
                }
                assert forall|q: int| 0 <= q < t@.len() implies (#[trigger] t@[q]).count == occ(
                    np,
                    pc_key(t@[q]),
                ) by {
                    assert(pc_key(t@[q]) == pc_key(old_t[q]));
                    if q != k {
                        assert(pc_key(old_t[q]) != pc_key(old_t[k as int]));
                    }
                }
                assert forall|x: (Seq<char>, Seq<char>)| occ(np, x) > 0 implies exists|q: int|
                    0 <= q < t@.len() && pc_key(#[trigger] t@[q]) == x by {
                    if x == e {
                        assert(pc_key(t@[k as int]) == x);
                    } else {
                        assert(occ(p, x) > 0);
                        let q = choose|q: int| 0 <= q < old_t.len() && pc_key(#[trigger] old_t[q]) == x;
                        assert(pc_key(t@[q]) == x);
                    }
                }
            }
        } else {
            let ghost old_t = t@;
            proof {
                assert(k == old_t.len());
                assert(occ(p, e) == 0) by {
                    if occ(p, e) > 0 {
                        let q = choose|q: int| 0 <= q < old_t.len() && pc_key(#[trigger] old_t[q]) == e;
                        assert(pc_key(old_t[q]) != e);
                    }
                }
            }
            t.push(PairCount { cause: pairs[i].0.clone(), effect: pairs[i].1.clone(), count: 1 });
            proof {
                let np = pv.take(i as int + 1);
                assert forall|a: int, b: int| 0 <= a < b < t@.len() implies pc_key(t@[a]) != pc_key(
                    t@[b],
                ) by {
                    if b == old_t.len() {
                        assert(pc_key(t@[b]) == e);
                        assert(t@[a] == old_t[a]);
                        assert(pc_key(old_t[a]) != e);
                    } else {
                        assert(t@[a] == old_t[a] && t@[b] == old_t[b]);
                    }
                }
                assert forall|q: int| 0 <= q < t@.len() implies (#[trigger] t@[q]).count == occ(
                    np,
                    pc_key(t@[q]),
                ) by {
                    if q < old_t.len() {
                        assert(t@[q] == old_t[q]);
                    } else {
                        assert(pc_key(t@[q]) == e);
                    }
                }
                assert forall|x: (Seq<char>, Seq<char>)| occ(np, x) > 0 implies exists|q: int|
                    0 <= q < t@.len() && pc_key(#[trigger] t@[q]) == x by {
                    if x == e {
                        assert(pc_key(t@[old_t.len() as int]) == x);
                    } else {
                        assert(occ(p, x) > 0);
                        let q = choose|q: int| 0 <= q < old_t.len() && pc_key(#[trigger] old_t[q]) == x;
                        assert(t@[q] == old_t[q]);
                    }
                }
            }
        }
        i = i + 1;
    }
    proof {
        assert(pv.take(pairs.len() as int) =~= pv);
    }
    t
}

/// The one-element list a cause is crossed with to count its slots.
pub open spec fn unit_list() -> Seq<Seq<char>> {
    seq![Seq::<char>::empty()]
}

/// The slots of a window of three commits where a change could be followed
/// by a later one: each change of the first commit twice (the second and
/// third commits follow), each change of the second once; each slot is a
/// pair of the change with the empty text.
pub open spec fn window_slots(w: Seq<Seq<Seq<char>>>) -> Seq<(Seq<char>, Seq<char>)> {
    cross(w[0], unit_list()) + cross(w[0], unit_list()) + cross(w[1], unit_list())
}

/// The slots of every window of three consecutive commits, in order.
pub open spec fn log_slots(adds: Seq<Seq<Seq<char>>>) -> Seq<(Seq<char>, Seq<char>)>
    decreases adds.len(),
{
    if adds.len() < 3 {
        Seq::empty()
    } else {
        log_slots(adds.drop_last()) + window_slots(adds.subrange(adds.len() - 3, adds.len() as int))
    }
}

/// How often the cause `c` occurred with a later commit in its window.
pub open spec fn cause_total(adds: Seq<Seq<Seq<char>>>, c: Seq<char>) -> nat {
    occ(log_slots(adds), (c, Seq::<char>::empty()))
}

/// Whether the cause `p.0` precedes the effect `p.1` in the history `adds`:
/// the cause occurred at least three times with a later commit in its
/// window, and more than half of those occurrences were followed by the
/// effect (the pair's temporal precedence, `occ / cause_total`, is above
/// one half).
pub open spec fn precedes(adds: Seq<Seq<Seq<char>>>, p: (Seq<char>, Seq<char>)) -> bool {
    cause_total(adds, p.0) >= 3 && 2 * occ(log_pairs(adds), p) > cause_total(adds, p.0)
}

/// A cause-effect pair of addresses with how often, within a window, the
/// effect followed the cause (`count`) and how often the cause occurred
/// with a later commit in its window (`total`).
#[derive(Debug, Clone, PartialEq, Eq)]
pub struct PairPrecedence {
    pub cause: String,
    pub effect: String,
    pub count: usize,
    pub total: usize,
}

/// The pair of a precedence.
pub open spec fn pp_key(x: PairPrecedence) -> (Seq<char>, Seq<char>) {
    (x.cause@, x.effect@)
}

/// The slots of every window of three consecutive commits (see
/// `log_slots`).
fn window_slot_list(adds: &Vec<Vec<String>>) -> (r: Vec<(String, String)>)
    ensures
        pairs_view(r@) == log_slots(adds_views(adds@)),
{
    let ghost av = adds_views(adds@);
    let unit: Vec<String> = vec![String::new()];
    proof {
        assert(unit@.map_values(|s: String| s@) =~= unit_list());
    }
    let mut out: Vec<(String, String)> = Vec::new();
    let n = adds.len();
    if n < 3 {
        proof {
            assert(pairs_view(out@) =~= Seq::<(Seq<char>, Seq<char>)>::empty());
        }
        return out;
    }
    let mut w: usize = 0;
    proof {
        assert(log_slots(av.take(2)) == Seq::<(Seq<char>, Seq<char>)>::empty());
        assert(pairs_view(out@) =~= Seq::<(Seq<char>, Seq<char>)>::empty());
    }
    while w + 2 < n
        invariant
            n == adds.len(),
            n >= 3,
            w + 2 <= n,
            av == adds_views(adds@),
            unit@.map_values(|s: String| s@) == unit_list(),
            pairs_view(out@) == log_slots(av.take(w as int + 2)),
        decreases n - w,
    {
        proof {
            assert(av[w as int] == adds@[w as int]@.map_values(|s: String| s@));
            assert(av[w as int + 1] == adds@[w as int + 1]@.map_values(|s: String| s@));
        }
        push_cross(&mut out, &adds[w], &unit);
        push_cross(&mut out, &adds[w], &unit);
        push_cross(&mut out, &adds[w + 1], &unit);
        proof {
            let t = av.take(w as int + 3);
            assert(t.drop_last() =~= av.take(w as int + 2));
            let win = t.subrange(t.len() - 3, t.len() as int);
            assert(win[0] == av[w as int]);
            assert(win[1] == av[w as int + 1]);
            assert(log_slots(t) == log_slots(av.take(w as int + 2)) + window_slots(win));
            assert(pairs_view(out@) =~= log_slots(t));
        }
        w = w + 1;
    }
    proof {
        assert(av.take(n as int) =~= av);
    }
    out
}

/// The count of the pair `(cause, effect)` in the tally `t` of `s`.
fn count_in(t: &Vec<PairCount>, cause: &str, effect: &str, Ghost(s): Ghost<Seq<(Seq<char>, Seq<char>)>>) -> (n: usize)
    requires
        tally_of(t@, s),
    ensures
        n == occ(s, (cause@, effect@)),
{
    let ghost e = (cause@, effect@);
    let mut k: usize = 0;
    while k < t.len()
        invariant
            k <= t.len(),
            tally_of(t@, s),
            e == (cause@, effect@),
            forall|q: int| 0 <= q < k ==> pc_key(#[trigger] t@[q]) != e,
        decreases t.len() - k,
    {
        if str_eq(t[k].cause.as_str(), cause) && str_eq(t[k].effect.as_str(), effect) {
            return t[k].count;
        }
        k = k + 1;
    }
    proof {
        if occ(s, e) > 0 {
            let q = choose|q: int| 0 <= q < t@.len() && pc_key(#[trigger] t@[q]) == e;
            assert(pc_key(t@[q]) != e);
        }
    }
    0
}

/// The pairs of a history whose cause precedes its effect (see `precedes`),
/// each once, with its count and its cause's total (in an order this
/// contract leaves open).
pub fn precedence_pairs(adds: &Vec<Vec<String>>) -> (r: Vec<PairPrecedence>)
    ensures
        forall|k: int|
            0 <= k < r@.len() ==> (#[trigger] r@[k]).count == occ(log_pairs(adds_views(adds@)), pp_key(r@[k]))
                && r@[k].total == cause_total(adds_views(adds@), r@[k].cause@),
        forall|k: int| 0 <= k < r@.len() ==> precedes(adds_views(adds@), pp_key(#[trigger] r@[k])),
        forall|a: int, b: int| 0 <= a < b < r@.len() ==> pp_key(r@[a]) != pp_key(r@[b]),
        forall|p: (Seq<char>, Seq<char>)|
            precedes(adds_views(adds@), p) ==> exists|k: int| 0 <= k < r@.len() && pp_key(#[trigger] r@[k]) == p,
{
    let ghost av = adds_views(adds@);
    let pairs = window_pair_list(adds);
    let t = tally(&pairs);
    let slots = window_slot_list(adds);
    let st = tally(&slots);
    let ghost s = pairs_view(pairs@);
    let ghost ss = pairs_view(slots@);
    let mut r: Vec<PairPrecedence> = Vec::new();
    let mut i: usize = 0;
    while i < t.len()
        invariant
            i <= t.len(),
            s == log_pairs(av),
            ss == log_slots(av),
            av == adds_views(adds@),
            tally_of(t@, s),
            tally_of(st@, ss),
            forall|k: int|
                0 <= k < r@.len() ==> (#[trigger] r@[k]).count == occ(s, pp_key(r@[k])) && r@[k].total
                    == cause_total(av, r@[k].cause@) && precedes(av, pp_key(r@[k])),
            forall|k: int| 0 <= k < r@.len() ==> exists|j: int| 0 <= j < i && pc_key(t@[j]) == pp_key(#[trigger] r@[k]),
            forall|a: int, b: int| 0 <= a < b < r@.len() ==> pp_key(r@[a]) != pp_key(r@[b]),
            forall|j: int|
                0 <= j < i && precedes(av, pc_key(#[trigger] t@[j])) ==> exists|k: int|
                    0 <= k < r@.len() && pp_key(#[trigger] r@[k]) == pc_key(t@[j]),
        decreases t.len() - i,
    {
        let count = t[i].count;
        let total = count_in(&st, t[i].cause.as_str(), "", Ghost(ss));
        proof {
            reveal_strlit("");
            assert(""@ =~= Seq::<char>::empty());
            assert(total == cause_total(av, t@[i as int].cause@));
            assert(count == occ(s, pc_key(t@[i as int])));
        }
        if total >= 3 && count > total / 2 {
            let ghost old_r = r@;
            r.push(
                PairPrecedence {
                    cause: t[i].cause.clone(),
                    effect: t[i].effect.clone(),
                    count,
                    total,
                },
            );
            proof {
                assert(pp_key(r@[old_r.len() as int]) == pc_key(t@[i as int]));
                assert forall|k: int| 0 <= k < r@.len() implies exists|j: int|
                    0 <= j < i + 1 && pc_key(t@[j]) == pp_key(#[trigger] r@[k]) by {
                    if k < old_r.len() {
                        assert(r@[k] == old_r[k]);
                    }
                }
                assert forall|a: int, b: int| 0 <= a < b < r@.len() implies pp_key(r@[a]) != pp_key(r@[b]) by {
                    if b == old_r.len() {
                        assert(r@[a] == old_r[a]);
                        let j = choose|j: int| 0 <= j < i && pc_key(t@[j]) == pp_key(#[trigger] old_r[a]);
                        assert(pc_key(t@[j]) != pc_key(t@[i as int]));
                    } else {
                        assert(r@[a] == old_r[a] && r@[b] == old_r[b]);
                    }
                }
                assert forall|j: int|
                    0 <= j < i + 1 && precedes(av, pc_key(#[trigger] t@[j])) implies exists|k: int|
                    0 <= k < r@.len() && pp_key(#[trigger] r@[k]) == pc_key(t@[j]) by {
                    if j < i {
                        let k = choose|k: int| 0 <= k < old_r.len() && pp_key(#[trigger] old_r[k]) == pc_key(t@[j]);
                        assert(r@[k] == old_r[k]);
                    } else {
                        assert(pp_key(r@[old_r.len() as int]) == pc_key(t@[j]));
                    }
                }
            }
        } else {
            proof {
                assert(!precedes(av, pc_key(t@[i as int])));
                assert forall|k: int| 0 <= k < r@.len() implies exists|j: int|
                    0 <= j < i + 1 && pc_key(t@[j]) == pp_key(#[trigger] r@[k]) by {
                    let j = choose|j: int| 0 <= j < i && pc_key(t@[j]) == pp_key(#[trigger] r@[k]);
                    assert(0 <= j < i + 1 && pc_key(t@[j]) == pp_key(r@[k]));
                }
            }
        }
        i = i + 1;
    }
    proof {
        assert forall|p: (Seq<char>, Seq<char>)| precedes(av, p) implies exists|k: int|
            0 <= k < r@.len() && pp_key(#[trigger] r@[k]) == p by {
            assert(occ(s, p) > 0);
            let j = choose|j: int| 0 <= j < t@.len() && pc_key(#[trigger] t@[j]) == p;
            assert(precedes(av, pc_key(t@[j])));
        }
    }
    r
}

/// The line that shows one commit to a semantic diagnosis.
pub open spec fn heal_line_text(message: Seq<char>, adds: nat, updates: nat, deletes: nat) -> Seq<
    char,
> {
    message + " | adds:"@ + dec(adds) + " updates:"@ + dec(updates) + " deletes:"@ + dec(deletes)
}

/// The line that shows one commit to a semantic diagnosis: its message and
/// how many entries it added, updated and deleted.
pub fn heal_line(message: &str, adds: usize, updates: usize, deletes: usize) -> (r: String)
    ensures
        r@ == heal_line_text(message@, adds as nat, updates as nat, deletes as nat),
{
    let a = format_u64(adds as u64);
    let u = format_u64(updates as u64);
    let d = format_u64(deletes as u64);
    let s1 = concat_str(message, " | adds:");
    let s2 = concat_str(s1.as_str(), a.as_str());
    let s3 = concat_str(s2.as_str(), " updates:");
    let s4 = concat_str(s3.as_str(), u.as_str());
    let s5 = concat_str(s4.as_str(), " deletes:");
    let r = concat_str(s5.as_str(), d.as_str());
    proof {
        assert(r@ =~= heal_line_text(message@, adds as nat, updates as nat, deletes as nat));
    }
    r
}

/// The answer format a semantic diagnosis asks for.
pub const HEAL_TAIL: &'static str = "\nReturn JSON array of repair actions:\n[{\"action\": \"rollback|patch|supplement|remove\", \"description\": \"...\", \"target\": \"...\"}]\n";

/// The request of a semantic diagnosis over the commit lines joined by
/// newlines.
pub open spec fn heal_prompt_text(lines: Seq<char>) -> Seq<char> {
    "Diagnose potential issues in this version history:\n\n"@ + lines + HEAL_TAIL@
}

/// The request of a semantic diagnosis.
pub fn heal_prompt(lines: &str) -> (r: String)
    ensures
        r@ == heal_prompt_text(lines@),
{
    let a = concat_str("Diagnose potential issues in this version history:\n\n", lines);
    let r = concat_str(a.as_str(), HEAL_TAIL);
    proof {
        assert(r@ =~= heal_prompt_text(lines@));
    }
    r
}

/// The answer format a distillation asks for.
pub const DISTILL_TAIL: &'static str = "\n\nReturn a JSON array of crystals:\n[{\"principle\": \"...\", \"preconditions\": [...], \"expected_outcome\": \"...\", \"confidence\": 0.0-1.0}]\n";

/// The request of a distillation over the experience overviews joined by
/// `\n===\n`.
pub open spec fn distill_prompt_text(combined: Seq<char>) -> Seq<char> {
    "Distill reusable knowledge principles from these experiences:\n\n"@ + combined + DISTILL_TAIL@
}

/// The request of a distillation.
pub fn distill_prompt(combined: &str) -> (r: String)
    ensures
        r@ == distill_prompt_text(combined@),
{
    let a = concat_str("Distill reusable knowledge principles from these experiences:\n\n", combined);
    let r = concat_str(a.as_str(), DISTILL_TAIL);
    proof {
        assert(r@ =~= distill_prompt_text(combined@));
    }
    r
}

/// The id of the `i`-th distilled crystal.
pub fn crystal_id(i: usize) -> (r: String)
    ensures
        r@ == "crystal-"@ + dec(i as nat),
{
    let n = format_u64(i as u64);
    concat_str("crystal-", n.as_str())
}

/// Causal inference over the history of a version store: pairs of changes
/// whose order holds more often than not.
pub struct CausalInference<V> {
    store: Arc<V>,
}

impl<V> CausalInference<V> {
    /// Inference over `store`.
    pub fn new(store: Arc<V>) -> (r: CausalInference<V>)
        ensures
            r.store_spec() == store,
    {
        CausalInference { store }
    }

    /// The store read.
    pub closed spec fn store_spec(&self) -> Arc<V> {
        self.store
    }

    /// The store read.
    pub fn store(&self) -> (r: &Arc<V>)
        ensures
            *r == self.store_spec(),
    {
        &self.store
    }
}

} // verus!
