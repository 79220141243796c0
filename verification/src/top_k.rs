//! Top-k selection for brute-force vector search: the positions of the
//! `k` best-scored records, best first. Scores enter as order keys (larger
//! is better), so that records are ordered and found again by integers;
//! and the metadata filter a record must pass to be scored.

use vstd::prelude::*;
use crate::text::str_eq;

verus! {

/// How many positions a selection of `k` among `n` returns: at least one
/// is asked for, and no more than there are.
pub open spec fn selection_len(k: nat, n: nat) -> nat {
    let want: nat = if k == 0 { 1 } else { k };
    if want <= n { want } else { n }
}

/// The positions are distinct and within `n`.
pub open spec fn distinct_positions(pos: Seq<usize>, n: nat) -> bool {
    &&& forall|i: int| 0 <= i < pos.len() ==> (#[trigger] pos[i]) < n
    &&& forall|i: int, j: int| 0 <= i < j < pos.len() ==> pos[i] != pos[j]
}

/// The keys of the positions never increase.
pub open spec fn best_first(keys: Seq<u64>, pos: Seq<usize>) -> bool {
    forall|i: int, j: int| 0 <= i < j < pos.len() ==> keys[pos[i] as int] >= keys[pos[j] as int]
}

/// No position left out has a key above the last one chosen.
pub open spec fn nothing_better_left(keys: Seq<u64>, pos: Seq<usize>, upto: nat) -> bool {
    pos.len() > 0 ==> forall|x: usize| x < upto && !pos.contains(x) ==> keys[x as int] <= keys[pos.last() as int]
}

/// The positions of the `max(k, 1)` largest keys (all of them when there
/// are fewer), largest first. Among equal keys no order is promised.
pub fn top_k_positions(keys: &Vec<u64>, k: usize) -> (r: Vec<usize>)
    ensures
        r.len() == selection_len(k as nat, keys.len() as nat),
        distinct_positions(r@, keys.len() as nat),
        best_first(keys@, r@),
        nothing_better_left(keys@, r@, keys.len() as nat),
{
    let cap: usize = if k == 0 { 1 } else { k };
    let mut best: Vec<usize> = Vec::new();
    let mut p: usize = 0;
    while p < keys.len()
        invariant
            cap >= 1,
            cap == (if k == 0 { 1 } else { k }),
            p <= keys.len(),
            best.len() == (if cap <= p { cap } else { p }),
            distinct_positions(best@, p as nat),
            best_first(keys@, best@),
            nothing_better_left(keys@, best@, p as nat),
            best.len() < cap ==> forall|x: usize| x < p ==> best@.contains(x),
        decreases keys.len() - p,
    {
        let v = keys[p];
        let mut q: usize = best.len();
        while q > 0 && keys[best[q - 1]] < v
            invariant
                q <= best.len(),
                forall|j: int| 0 <= j < best.len() ==> (#[trigger] best@[j]) < keys.len(),
                forall|j: int| q <= j < best.len() ==> keys@[(#[trigger] best@[j]) as int] < v,
                v == keys@[p as int],
            decreases q,
        {
            q = q - 1;
        }
        if q < cap {
            let ghost old_best = best@;
            best.insert(q, p);
            proof {
                assert(best@ == old_best.insert(q as int, p));
                assert forall|i: int, j: int| 0 <= i < j < best@.len() implies keys@[best@[i] as int] >= keys@[best@[j] as int] by {
                    if j < q {
                        assert(best@[i] == old_best[i] && best@[j] == old_best[j]);
                    } else if j == q {
                        assert(best@[i] == old_best[i]);
                        assert(keys@[old_best[q - 1] as int] >= v);
                        assert(keys@[old_best[i] as int] >= keys@[old_best[q - 1] as int]);
                    } else if i == q {
                        assert(best@[j] == old_best[j - 1]);
                    } else if i < q {
                        assert(best@[i] == old_best[i] && best@[j] == old_best[j - 1]);
                    } else {
                        assert(best@[i] == old_best[i - 1] && best@[j] == old_best[j - 1]);
                    }
                }
                assert forall|i: int, j: int| 0 <= i < j < best@.len() implies best@[i] != best@[j] by {
                    if i < q && j < q {
                        assert(best@[i] == old_best[i] && best@[j] == old_best[j]);
                    } else if i < q && j > q {
                        assert(best@[i] == old_best[i] && best@[j] == old_best[j - 1]);
                    } else if i > q {
                        assert(best@[i] == old_best[i - 1] && best@[j] == old_best[j - 1]);
                    } else if i == q {
                        assert(best@[j] == old_best[j - 1]);
                    } else {
                        assert(best@[i] == old_best[i]);
                    }
                }
                assert forall|x: usize| x < p + 1 && !best@.contains(x) implies keys@[x as int] <= keys@[best@.last() as int] by {
                    assert(best@[q as int] == p);
                    assert(x != p);
                    if old_best.len() < cap {
                        assert(old_best.contains(x));
                        let w = choose|w: int| 0 <= w < old_best.len() && old_best[w] == x;
                        if w < q {
                            assert(best@[w] == x);
                        } else {
                            assert(best@[w + 1] == x);
                        }
                    } else {
                        if old_best.contains(x) {
                            let w = choose|w: int| 0 <= w < old_best.len() && old_best[w] == x;
                            if w < q {
                                assert(best@[w] == x);
                            } else {
                                assert(best@[w + 1] == x);
                            }
                        }
                    }
                }
                assert(best@.len() < cap ==> forall|x: usize| x < p + 1 ==> best@.contains(x)) by {
                    if best@.len() < cap {
                        assert forall|x: usize| x < p + 1 implies best@.contains(x) by {
                            if x == p {
                                assert(best@[q as int] == p);
                            } else {
                                assert(old_best.contains(x));
                                let w = choose|w: int| 0 <= w < old_best.len() && old_best[w] == x;
                                if w < q {
                                    assert(best@[w] == x);
                                } else {
                                    assert(best@[w + 1] == x);
                                }
                            }
                        }
                    }
                }
            }
            if best.len() > cap {
                let ghost full = best@;
                let dropped = best.pop().unwrap();
                proof {
                    assert(best@ =~= full.drop_last());
                    assert(dropped == full.last());
                    assert forall|x: usize| x < p + 1 && !best@.contains(x) implies keys@[x as int] <= keys@[best@.last() as int] by {
                        assert(keys@[full[cap - 1] as int] >= keys@[full[cap as int] as int]);
                        assert(best@.last() == full[cap - 1]);
                        if x == dropped {
                        } else {
                            if full.contains(x) {
                                let w = choose|w: int| 0 <= w < full.len() && full[w] == x;
                                assert(w < cap);
                                assert(best@[w] == x);
                            }
                        }
                    }
                }
            }
        } else {
            proof {
                assert(q == best.len());
                assert(keys@[best@[q - 1] as int] >= v);
                assert(best@.last() == best@[q - 1]);
            }
        }
        p = p + 1;
    }
    best
}


/// Whether `meta` holds the key `k` with the value `v`.
pub open spec fn holds_entry(meta: Seq<(String, String)>, k: Seq<char>, v: Seq<char>) -> bool {
    exists|j: int| 0 <= j < meta.len() && #[trigger] meta[j].0@ == k && meta[j].1@ == v
}

/// Whether a record's metadata carries every `(key, value)` of a search
/// filter (values compared as their JSON text).
pub fn metadata_matches(filter: &Vec<(String, String)>, meta: &Vec<(String, String)>) -> (b: bool)
    ensures
        b == forall|i: int| 0 <= i < filter@.len() ==> holds_entry(meta@, #[trigger] filter@[i].0@, filter@[i].1@),
{
    let mut i: usize = 0;
    while i < filter.len()
        invariant
            i <= filter.len(),
            forall|q: int| 0 <= q < i ==> holds_entry(meta@, #[trigger] filter@[q].0@, filter@[q].1@),
        decreases filter.len() - i,
    {
        let mut j: usize = 0;
        let mut found = false;
        while j < meta.len() && !found
            invariant
                i < filter.len(),
                j <= meta.len(),
                found ==> holds_entry(meta@, filter@[i as int].0@, filter@[i as int].1@),
                !found ==> forall|x: int|
                    0 <= x < j ==> !(#[trigger] meta@[x].0@ == filter@[i as int].0@ && meta@[x].1@
                        == filter@[i as int].1@),
            decreases meta.len() - j, if found { 0int } else { 1int },
        {
            if str_eq(meta[j].0.as_str(), filter[i].0.as_str()) && str_eq(meta[j].1.as_str(), filter[i].1.as_str()) {
                found = true;
            } else {
                j = j + 1;
            }
        }
        if !found {
            proof {
                assert(!holds_entry(meta@, filter@[i as int].0@, filter@[i as int].1@));
            }
            return false;
        }
        i = i + 1;
    }
    true
}

} // verus!
