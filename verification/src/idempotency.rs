//! Effectively-once processing: which key identifies an envelope, a bounded
//! memory of processed keys, and the decisions of the consuming loop
//! (skip what was processed, mark and acknowledge on success, requeue on
//! failure).

use vstd::prelude::*;
use vstd::hash_set::StringHashSet;
use std::collections::VecDeque;
use crate::mesh_error::EventMeshError;

verus! {

/// Which key identifies an envelope for deduplication.
#[derive(Debug, Clone, Copy, PartialEq, Eq)]
pub enum DedupKey {
    /// The envelope id (always present).
    EnvelopeId,
    /// The envelope's idempotency key, or its id when it has none.
    IdempotencyKey,
}

impl Default for DedupKey {
    fn default() -> (r: Self)
        ensures
            r == DedupKey::EnvelopeId,
    {
        DedupKey::EnvelopeId
    }
}

impl DedupKey {
    /// The key of an envelope with id text `id` and idempotency key `key`.
    pub fn extract(&self, id: &str, key: Option<&str>) -> (r: String)
        ensures
            r@ == (match (*self, key) {
                (DedupKey::IdempotencyKey, Some(k)) => k@,
                _ => id@,
            }),
    {
        match self {
            DedupKey::EnvelopeId => id.to_owned(),
            DedupKey::IdempotencyKey => match key {
                Some(k) => k.to_owned(),
                None => id.to_owned(),
            },
        }
    }
}

/// Where processed keys are remembered.
pub trait IdempotencyStore {
    /// Whether `key` was marked processed.
    fn is_processed(&self, key: &str) -> Result<bool, EventMeshError>;

    /// Marks `key` processed.
    fn mark_processed(&mut self, key: &str) -> Result<(), EventMeshError>;
}

/// A bounded memory of processed keys that forgets the oldest key first.
pub struct ProcessedKeys {
    cap: usize,
    set: StringHashSet,
    queue: VecDeque<String>,
}

/// The texts of a queue of keys.
pub open spec fn key_texts(q: Seq<String>) -> Seq<Seq<char>> {
    q.map_values(|s: String| s@)
}

impl View for ProcessedKeys {
    /// The remembered keys, oldest first.
    type V = Seq<Seq<char>>;

    closed spec fn view(&self) -> Seq<Seq<char>> {
        key_texts(self.queue@)
    }
}

impl ProcessedKeys {
    /// How many keys are kept (at least one).
    pub closed spec fn capacity(&self) -> nat {
        self.cap as nat
    }

    /// The set mirrors the queue, without repeats, within capacity.
    pub closed spec fn wf(&self) -> bool {
        &&& self.cap >= 1
        &&& self.set@ == key_texts(self.queue@).to_set()
        &&& key_texts(self.queue@).no_duplicates()
        &&& self.queue@.len() <= self.cap
    }

    /// An empty memory for `cap` keys (a capacity of 0 keeps one).
    pub fn new(cap: usize) -> (r: ProcessedKeys)
        ensures
            r.wf(),
            r@ == Seq::<Seq<char>>::empty(),
            r.capacity() == (if cap == 0 { 1 } else { cap }),
    {
        let c: usize = if cap == 0 { 1 } else { cap };
        let r = ProcessedKeys { cap: c, set: StringHashSet::new(), queue: VecDeque::new() };
        proof {
            assert(key_texts(r.queue@) =~= Seq::<Seq<char>>::empty());
            assert(key_texts(r.queue@).to_set() =~= Set::<Seq<char>>::empty());
        }
        r
    }

    /// Whether `key` is remembered.
    pub fn contains(&self, key: &str) -> (b: bool)
        requires
            self.wf(),
        ensures
            b == self@.contains(key@),
    {
        self.set.contains(key)
    }

    /// Remembers `key`; a key already remembered changes nothing, and a full
    /// memory forgets its oldest key first.
    pub fn mark(&mut self, key: &str)
        requires
            old(self).wf(),
        ensures
            final(self).wf(),
            final(self).capacity() == old(self).capacity(),
            old(self)@.contains(key@) ==> final(self)@ == old(self)@,
            !old(self)@.contains(key@) ==> final(self)@ == (if old(self)@.len() == old(self).capacity() {
                old(self)@.drop_first()
            } else {
                old(self)@
            }).push(key@),
    {
        if self.set.contains(key) {
            return;
        }
        let ghost q0 = key_texts(self.queue@);
        if self.queue.len() == self.cap {
            if let Some(oldest) = self.queue.pop_front() {
                self.set.remove(oldest.as_str());
                proof {
                    assert(q0[0] == oldest@);
                    assert(key_texts(self.queue@) =~= q0.drop_first());
                    assert(q0.drop_first().to_set() =~= q0.to_set().remove(oldest@)) by {
                        assert forall|x: Seq<char>| q0.drop_first().to_set().contains(x) implies x != oldest@ by {
                            let j = choose|j: int| 0 <= j < q0.drop_first().len() && q0.drop_first()[j] == x;
                            assert(q0[j + 1] == x);
                        }
                        assert forall|x: Seq<char>| #[trigger] q0.to_set().contains(x) && x != oldest@ implies q0.drop_first().to_set().contains(x) by {
                            let j = choose|j: int| 0 <= j < q0.len() && q0[j] == x;
                            assert(j > 0);
                            assert(q0.drop_first()[j - 1] == x);
                        }
                    }
                }
            }
        }
        let ghost q1 = key_texts(self.queue@);
        proof {
            assert(q1 == q0 || q1 == q0.drop_first());
            assert(!q1.contains(key@)) by {
                if q1.contains(key@) {
                    let j = choose|j: int| 0 <= j < q1.len() && q1[j] == key@;
                    if q1 == q0 {
                        assert(q0.to_set().contains(key@));
                    } else {
                        assert(q0[j + 1] == key@);
                        assert(q0.to_set().contains(key@));
                    }
                }
            }
        }
        let k1 = key.to_owned();
        let k2 = key.to_owned();
        self.set.insert(k1);
        self.queue.push_back(k2);
        proof {
            assert(key_texts(self.queue@) =~= q1.push(key@));
            q1.lemma_push_to_set_commute(key@);
            assert(self.set@ =~= q1.to_set().insert(key@));
            assert(key_texts(self.queue@).no_duplicates()) by {
                let q2 = key_texts(self.queue@);
                assert forall|i: int, j: int| 0 <= i < q2.len() && 0 <= j < q2.len() && i != j implies q2[i] != q2[j] by {
                    if i < q1.len() && j < q1.len() {
                        if q1 != q0 {
                            assert(q1[i] == q0[i + 1]);
                            assert(q1[j] == q0[j + 1]);
                        }
                    } else if i < q1.len() {
                        assert(q1.contains(q1[i]));
                    } else {
                        assert(q1.contains(q1[j]));
                    }
                }
            }
        }
    }
}

/// The remembered keys after marking `k`: unchanged when `k` is already
/// remembered; otherwise `k` is appended, the oldest key forgotten first
/// when `cap` keys are remembered.
pub open spec fn after_mark(rem: Seq<Seq<char>>, cap: nat, k: Seq<char>) -> Seq<Seq<char>> {
    if rem.contains(k) {
        rem
    } else {
        (if rem.len() == cap {
            rem.drop_first()
        } else {
            rem
        }).push(k)
    }
}

/// A key once marked processed is reported processed by the next query, and
/// the memory never holds more than its capacity.
pub proof fn marked_key_is_processed(rem: Seq<Seq<char>>, cap: nat, k: Seq<char>)
    requires
        cap >= 1,
        rem.len() <= cap,
    ensures
        after_mark(rem, cap, k).contains(k),
        after_mark(rem, cap, k).len() <= cap,
{
    let r = after_mark(rem, cap, k);
    if !rem.contains(k) {
        assert(r[r.len() - 1] == k);
    }
}

/// The in-memory store: a bounded memory of processed keys whose
/// well-formedness is a type invariant.
pub struct MemoryIdempotencyStore {
    keys: ProcessedKeys,
}

impl MemoryIdempotencyStore {
    #[verifier::type_invariant]
    closed spec fn inv(self) -> bool {
        self.keys.wf()
    }

    /// The remembered keys, oldest first.
    pub closed spec fn remembered(self) -> Seq<Seq<char>> {
        self.keys@
    }

    /// The number of keys kept.
    pub closed spec fn capacity(self) -> nat {
        self.keys.capacity()
    }

    /// An empty store keeping up to `cap` keys (at least one).
    pub fn new(cap: usize) -> (r: MemoryIdempotencyStore)
        ensures
            r.remembered() == Seq::<Seq<char>>::empty(),
            r.capacity() == (if cap == 0 { 1 } else { cap }),
    {
        MemoryIdempotencyStore { keys: ProcessedKeys::new(cap) }
    }
}

impl IdempotencyStore for MemoryIdempotencyStore {
    fn is_processed(&self, key: &str) -> (r: Result<bool, EventMeshError>)
        ensures
            r == Ok::<bool, EventMeshError>(self.remembered().contains(key@)),
    {
        proof {
            use_type_invariant(self);
        }
        Ok(self.keys.contains(key))
    }

    fn mark_processed(&mut self, key: &str) -> (r: Result<(), EventMeshError>)
        ensures
            r is Ok,
            final(self).capacity() == old(self).capacity(),
            final(self).remembered() == after_mark(old(self).remembered(), old(self).capacity(), key@),
    {
        proof {
            use_type_invariant(&*self);
        }
        let mut working = ProcessedKeys::new(1);
        std::mem::swap(&mut working, &mut self.keys);
        working.mark(key);
        std::mem::swap(&mut working, &mut self.keys);
        Ok(())
    }
}

/// What the consuming loop does with an envelope before running the
/// handler.
#[derive(Debug, Clone, Copy, PartialEq, Eq)]
pub enum BeforeHandler {
    /// Already processed: acknowledge and skip.
    AckAndSkip,
    /// Run the handler.
    Run,
}

/// The decision before the handler, from what the store answered; a store
/// error counts as not processed (running again is safer than skipping).
pub fn before_handler(processed: &Result<bool, EventMeshError>) -> (r: BeforeHandler)
    ensures
        r == (if processed matches Ok(true) {
            BeforeHandler::AckAndSkip
        } else {
            BeforeHandler::Run
        }),
{
    match processed {
        Ok(true) => BeforeHandler::AckAndSkip,
        _ => BeforeHandler::Run,
    }
}

/// What the consuming loop does after the handler ran.
#[derive(Debug, Clone, Copy, PartialEq, Eq)]
pub enum AfterHandler {
    /// Success: mark the key processed, then acknowledge.
    MarkAndAck,
    /// Failure: negative acknowledgement with immediate requeue; the key is
    /// not marked.
    NackImmediate,
}

/// The decision after the handler, from whether it succeeded.
pub fn after_handler(succeeded: bool) -> (r: AfterHandler)
    ensures
        r == (if succeeded {
            AfterHandler::MarkAndAck
        } else {
            AfterHandler::NackImmediate
        }),
{
    if succeeded {
        AfterHandler::MarkAndAck
    } else {
        AfterHandler::NackImmediate
    }
}

} // verus!
