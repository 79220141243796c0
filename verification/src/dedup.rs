//! Bounded-window duplicate detection for idempotency keys.

use vstd::prelude::*;
use std::collections::HashSet;
use std::collections::VecDeque;
use std::collections::hash_map::DefaultHasher;
use std::hash::Hasher;
use vstd::std_specs::hash::DefaultHasherAdditionalSpecFns;
use vstd::string::StringSliceAdditionalSpecFns;

verus! {

broadcast use vstd::std_specs::hash::group_hash_axioms;

/// The 64-bit fingerprint of a `(topic, key)` pair: the default hasher fed
/// the topic as `str` hashing writes it (its bytes, then `0xff`), a zero
/// byte as separator, then the key the same way.
pub open spec fn pair_fingerprint(topic: Seq<u8>, key: Seq<u8>) -> u64 {
    DefaultHasher::spec_finish(seq![topic, seq![0xffu8], seq![0u8], key, seq![0xffu8]])
}

/// The remembered fingerprints after a call with fingerprint `h`: unchanged
/// when `h` is remembered or the capacity is 0; otherwise `h` is appended,
/// the oldest forgotten first when `cap` are remembered.
pub open spec fn ring_step(q: Seq<u64>, cap: nat, h: u64) -> Seq<u64> {
    if q.contains(h) || cap == 0 {
        q
    } else {
        (if q.len() == cap { q.drop_first() } else { q }).push(h)
    }
}

/// The remembered fingerprints after calls with fingerprints `hs`, from an
/// empty ring.
pub open spec fn ring_run(cap: nat, hs: Seq<u64>) -> Seq<u64>
    decreases hs.len(),
{
    if hs.len() == 0 {
        Seq::empty()
    } else {
        ring_step(ring_run(cap, hs.drop_last()), cap, hs.last())
    }
}

/// The fingerprints of the calls among `hs` that reported no duplicate, in
/// order.
pub open spec fn fresh_calls(cap: nat, hs: Seq<u64>) -> Seq<u64>
    decreases hs.len(),
{
    if hs.len() == 0 {
        Seq::empty()
    } else {
        let f = fresh_calls(cap, hs.drop_last());
        if ring_run(cap, hs.drop_last()).contains(hs.last()) {
            f
        } else {
            f.push(hs.last())
        }
    }
}

/// The last `min(cap, s.len())` elements of `s`.
pub open spec fn last_n(s: Seq<u64>, cap: nat) -> Seq<u64> {
    if s.len() <= cap { s } else { s.subrange(s.len() - cap, s.len() as int) }
}

/// Over a whole history of calls on a fresh ring of capacity `cap`: the ring
/// remembers exactly the fingerprints of the last `min(cap, f)` calls that
/// reported no duplicate (`f` their count), so a call reports a duplicate
/// exactly when its pair is among those, and at most `cap` are remembered.
pub proof fn dedup_window_law(cap: nat, hs: Seq<u64>)
    ensures
        ring_run(cap, hs) == last_n(fresh_calls(cap, hs), cap),
        ring_run(cap, hs).len() <= cap,
    decreases hs.len(),
{
    if hs.len() > 0 {
        let p = hs.drop_last();
        let h = hs.last();
        dedup_window_law(cap, p);
        let f = fresh_calls(cap, p);
        let r = ring_run(cap, p);
        if !r.contains(h) && cap > 0 {
            let f2 = f.push(h);
            if f.len() < cap {
                assert(r == f);
                assert(last_n(f2, cap) == f2);
            } else {
                assert(r.len() == cap);
                assert(last_n(f2, cap) =~= r.drop_first().push(h));
            }
        } else if cap == 0 {
            assert(r.len() == 0);
            assert(last_n(fresh_calls(cap, hs), cap) =~= Seq::<u64>::empty());
        }
    }
}

/// Remembers the fingerprints of the most recent `cap` distinct pairs.
pub struct DedupRing {
    cap: usize,
    set: HashSet<u64>,
    queue: VecDeque<u64>,
}

impl View for DedupRing {
    /// The remembered fingerprints, oldest first.
    type V = Seq<u64>;

    closed spec fn view(&self) -> Seq<u64> {
        self.queue@
    }
}

impl DedupRing {
    /// The window size the ring was made with.
    pub closed spec fn capacity(&self) -> usize {
        self.cap
    }

    /// The set mirrors the queue, the queue holds no repeats, and the
    /// capacity bounds it.
    pub closed spec fn wf(&self) -> bool {
        &&& self.set@ == self.queue@.to_set()
        &&& self.queue@.no_duplicates()
        &&& self.queue@.len() <= self.cap
    }

    /// An empty ring with window `cap`.
    pub fn new(cap: usize) -> (r: DedupRing)
        ensures
            r.wf(),
            r@ == Seq::<u64>::empty(),
            r.capacity() == cap,
    {
        let initial: usize = if cap < 1024 { cap } else { 1024 };
        let r = DedupRing {
            cap,
            set: HashSet::with_capacity(initial),
            queue: VecDeque::with_capacity(initial),
        };
        proof {
            assert(r.queue@.to_set() =~= Set::<u64>::empty());
        }
        r
    }

    /// Whether `(topic, key)` was seen within the window; a pair not seen is
    /// remembered, evicting the oldest entry when the window is full. A ring
    /// of capacity 0 remembers nothing.
    pub fn check_and_insert(&mut self, topic: &str, key: &str) -> (seen: bool)
        requires
            old(self).wf(),
        ensures
            final(self).wf(),
            final(self).capacity() == old(self).capacity(),
            seen == old(self)@.contains(pair_fingerprint(topic.spec_bytes(), key.spec_bytes())),
            final(self)@ == ring_step(
                old(self)@,
                old(self).capacity() as nat,
                pair_fingerprint(topic.spec_bytes(), key.spec_bytes()),
            ),
            old(self).capacity() > 0 ==> final(self)@.contains(
                pair_fingerprint(topic.spec_bytes(), key.spec_bytes()),
            ),
    {
        if self.cap == 0 {
            proof {
                assert(self.queue@.len() == 0);
            }
            return false;
        }
        let ghost h_spec = pair_fingerprint(topic.spec_bytes(), key.spec_bytes());
        let mut hasher = DefaultHasher::new();
        let mut end_mark: Vec<u8> = Vec::new();
        end_mark.push(0xffu8);
        let mut separator: Vec<u8> = Vec::new();
        separator.push(0u8);
        proof {
            assert(end_mark@ =~= seq![0xffu8]);
            assert(separator@ =~= seq![0u8]);
        }
        hasher.write(topic.as_bytes());
        hasher.write(end_mark.as_slice());
        hasher.write(separator.as_slice());
        hasher.write(key.as_bytes());
        hasher.write(end_mark.as_slice());
        let h = hasher.finish();
        proof {
            assert(hasher@ =~= seq![topic.spec_bytes(), seq![0xffu8], seq![0u8], key.spec_bytes(), seq![0xffu8]]);
            assert(h == h_spec);
        }
        if !self.set.insert(h) {
            proof {
                assert(old(self).queue@.to_set().contains(h));
                assert(self.set@ =~= old(self).set@);
            }
            return true;
        }
        let ghost q0 = self.queue@;
        proof {
            assert(self.set@ == q0.to_set().insert(h));
        }
        if self.queue.len() == self.cap {
            if let Some(oldest) = self.queue.pop_front() {
                self.set.remove(&oldest);
                proof {
                    assert(q0[0] == oldest);
                    assert(q0.to_set().contains(oldest));
                    assert(self.set@ == q0.to_set().insert(h).remove(oldest));
                    assert(q0.drop_first().to_set() =~= q0.to_set().remove(oldest)) by {
                        assert forall|x: u64| q0.drop_first().to_set().contains(x) implies x != oldest by {
                            let j = choose|j: int| 0 <= j < q0.drop_first().len() && q0.drop_first()[j] == x;
                            assert(q0[j + 1] == x);
                        }
                        assert forall|x: u64| #[trigger] q0.to_set().contains(x) && x != oldest implies q0.drop_first().to_set().contains(x) by {
                            let j = choose|j: int| 0 <= j < q0.len() && q0[j] == x;
                            assert(j > 0);
                            assert(q0.drop_first()[j - 1] == x);
                        }
                    }
                }
            }
        }
        let ghost q1 = self.queue@;
        proof {
            assert(!q1.contains(h)) by {
                if q1.contains(h) {
                    let j = choose|j: int| 0 <= j < q1.len() && q1[j] == h;
                    if q1 == q0 {
                        assert(q0.to_set().contains(h));
                    } else {
                        assert(q0[j + 1] == h);
                        assert(q0.to_set().contains(h));
                    }
                }
            }
        }
        self.queue.push_back(h);
        proof {
            q1.lemma_push_to_set_commute(h);
            assert(self.set@ =~= q1.to_set().insert(h));
            assert(self.queue@ == q1.push(h));
            assert(self.queue@.to_set() =~= q1.to_set().insert(h));
            assert(self.queue@[self.queue@.len() - 1] == h);
            assert(self.queue@.no_duplicates()) by {
                assert forall|i: int, j: int|
                    0 <= i < self.queue@.len() && 0 <= j < self.queue@.len() && i != j implies
                    self.queue@[i] != self.queue@[j] by {
                    if i < q1.len() && j < q1.len() {
                        if q1 == q0 {
                        } else {
                            assert(q1[i] == q0[i + 1]);
                            assert(q1[j] == q0[j + 1]);
                        }
                    } else if i < q1.len() {
                        assert(q1.contains(q1[i]));
                    } else {
                        assert(q1.contains(q1[j]));
                    }
                }
            }
        }
        false
    }
}

} // verus!
