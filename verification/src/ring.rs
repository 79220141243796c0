//! The queue behind the drop-oldest backpressure policy: a bounded FIFO that
//! evicts its oldest item to make room instead of refusing the new one, and
//! that closes when its last sender goes away.

use vstd::prelude::*;
use std::collections::VecDeque;

verus! {

/// What became of a sent item.
#[derive(Debug, Clone, Copy, PartialEq, Eq)]
pub enum SendOutcome {
    /// Queued; nothing was evicted.
    Enqueued,
    /// Queued after evicting the oldest item.
    EvictedOldest,
    /// The channel is closed; the item was not queued.
    Closed,
}

/// Why `try_recv` returned no item.
#[derive(Debug, Clone, Copy, PartialEq, Eq)]
pub enum TryRecvError {
    /// Nothing queued, senders remain.
    Empty,
    /// Nothing queued and every sender is gone.
    Disconnected,
}

/// The queue after sending `x` into `q` with capacity `cap`.
pub open spec fn ring_step<T>(q: Seq<T>, cap: nat, x: T) -> Seq<T> {
    if q.len() >= cap && q.len() > 0 {
        q.drop_first().push(x)
    } else {
        q.push(x)
    }
}

/// The queue after sending every item of `xs`, in order, into an empty one.
pub open spec fn ring_after<T>(cap: nat, xs: Seq<T>) -> Seq<T>
    decreases xs.len(),
{
    if xs.len() == 0 {
        Seq::empty()
    } else {
        ring_step(ring_after(cap, xs.drop_last()), cap, xs.last())
    }
}

/// Bounded drop-oldest queue with a count of live senders.
pub struct RingBuffer<T> {
    cap: usize,
    queue: VecDeque<T>,
    closed: bool,
    senders: usize,
}

impl<T> View for RingBuffer<T> {
    /// The queued items, oldest first.
    type V = Seq<T>;

    closed spec fn view(&self) -> Seq<T> {
        self.queue@
    }
}

impl<T> RingBuffer<T> {
    /// The capacity (at least one).
    pub closed spec fn capacity(&self) -> nat {
        self.cap as nat
    }

    /// Whether the channel no longer accepts items.
    pub closed spec fn is_closed_spec(&self) -> bool {
        self.closed
    }

    /// The number of live senders.
    pub closed spec fn sender_count(&self) -> nat {
        self.senders as nat
    }

    /// The capacity is positive and bounds the queue.
    pub closed spec fn wf(&self) -> bool {
        &&& self.cap >= 1
        &&& self.queue@.len() <= self.cap
    }

    /// An open, empty channel with one sender; a capacity of zero is
    /// raised to one.
    pub fn new(cap: usize) -> (r: RingBuffer<T>)
        ensures
            r.wf(),
            r@ == Seq::<T>::empty(),
            r.capacity() == (if cap == 0 { 1 } else { cap }),
            !r.is_closed_spec(),
            r.sender_count() == 1,
    {
        let c: usize = if cap == 0 { 1 } else { cap };
        RingBuffer { cap: c, queue: VecDeque::new(), closed: false, senders: 1 }
    }

    /// Queues `item`, evicting the oldest item when full; refuses it when
    /// the channel is closed.
    pub fn send(&mut self, item: T) -> (out: SendOutcome)
        requires
            old(self).wf(),
        ensures
            final(self).wf(),
            final(self).capacity() == old(self).capacity(),
            final(self).is_closed_spec() == old(self).is_closed_spec(),
            final(self).sender_count() == old(self).sender_count(),
            old(self).is_closed_spec() ==> out == SendOutcome::Closed && final(self)@ == old(
                self,
            )@,
            !old(self).is_closed_spec() ==> {
                &&& final(self)@ == ring_step(old(self)@, old(self).capacity(), item)
                &&& out == (if old(self)@.len() == old(self).capacity() {
                    SendOutcome::EvictedOldest
                } else {
                    SendOutcome::Enqueued
                })
            },
    {
        if self.closed {
            return SendOutcome::Closed;
        }
        let evicted = if self.queue.len() == self.cap {
            let _ = self.queue.pop_front();
            true
        } else {
            false
        };
        self.queue.push_back(item);
        if evicted {
            SendOutcome::EvictedOldest
        } else {
            SendOutcome::Enqueued
        }
    }

    /// Takes the oldest item; when there is none, says whether senders
    /// remain.
    pub fn try_recv(&mut self) -> (r: Result<T, TryRecvError>)
        requires
            old(self).wf(),
        ensures
            final(self).wf(),
            final(self).capacity() == old(self).capacity(),
            final(self).is_closed_spec() == old(self).is_closed_spec(),
            final(self).sender_count() == old(self).sender_count(),
            old(self)@.len() > 0 ==> r == Ok::<T, TryRecvError>(old(self)@[0]) && final(self)@
                == old(self)@.drop_first(),
            old(self)@.len() == 0 ==> final(self)@ == old(self)@ && r == Err::<T, TryRecvError>(
                if old(self).is_closed_spec() {
                    TryRecvError::Disconnected
                } else {
                    TryRecvError::Empty
                },
            ),
    {
        match self.queue.pop_front() {
            Some(v) => Ok(v),
            None => {
                if self.closed {
                    Err(TryRecvError::Disconnected)
                } else {
                    Err(TryRecvError::Empty)
                }
            },
        }
    }

    /// The number of queued items.
    pub fn queued(&self) -> (n: usize)
        ensures
            n == self@.len(),
    {
        self.queue.len()
    }

    /// Whether the channel is closed.
    pub fn is_closed(&self) -> (b: bool)
        ensures
            b == self.is_closed_spec(),
    {
        self.closed
    }

    /// Another sender (a clone of a live one).
    pub fn add_sender(&mut self)
        requires
            old(self).sender_count() < usize::MAX,
        ensures
            final(self).sender_count() == old(self).sender_count() + 1,
            final(self)@ == old(self)@,
            final(self).capacity() == old(self).capacity(),
            final(self).is_closed_spec() == old(self).is_closed_spec(),
            final(self).wf() == old(self).wf(),
    {
        self.senders = self.senders + 1;
    }

    /// A sender went away; the last one closes the channel.
    pub fn drop_sender(&mut self)
        requires
            old(self).sender_count() > 0,
        ensures
            final(self).sender_count() == old(self).sender_count() - 1,
            final(self).is_closed_spec() == (old(self).is_closed_spec() || final(self).sender_count()
                == 0),
            final(self)@ == old(self)@,
            final(self).capacity() == old(self).capacity(),
            final(self).wf() == old(self).wf(),
    {
        self.senders = self.senders - 1;
        if self.senders == 0 {
            self.closed = true;
        }
    }
}

/// A channel of capacity `cap` that was sent `xs` keeps exactly the newest
/// `cap` of them (all of them when fewer were sent), oldest first.
pub proof fn ring_keeps_newest<T>(cap: nat, xs: Seq<T>)
    requires
        cap >= 1,
    ensures
        ring_after(cap, xs) == xs.skip(if xs.len() > cap { xs.len() - cap } else { 0 }),
    decreases xs.len(),
{
    if xs.len() > 0 {
        let dl = xs.drop_last();
        ring_keeps_newest(cap, dl);
        let n = xs.len();
        if n - 1 >= cap {
            assert(dl.skip(n - 1 - cap).drop_first().push(xs.last()) =~= xs.skip(n - cap));
        } else {
            assert(dl.skip(0).push(xs.last()) =~= xs.skip(if n > cap { n - cap } else { 0 }));
        }
    } else {
        assert(xs.skip(0) =~= xs);
    }
}

} // verus!
