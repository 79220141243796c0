//! The in-memory event store: a log that drops its oldest item when it
//! holds `cap` items, and the selection of a query's results (the matching
//! items, oldest first, stopping once the limit is reached).

use vstd::prelude::*;
use std::collections::VecDeque;

verus! {

/// The log after appending `x` to `q` with capacity `cap`: when it already
/// holds `cap` items the oldest is dropped first (with capacity 0 nothing
/// is held to drop, so it grows).
pub open spec fn log_step<T>(q: Seq<T>, cap: nat, x: T) -> Seq<T> {
    if q.len() == cap && q.len() > 0 {
        q.drop_first().push(x)
    } else {
        q.push(x)
    }
}

/// A bounded log of items, oldest first.
pub struct BoundedLog<T> {
    cap: usize,
    items: VecDeque<T>,
}

impl<T> View for BoundedLog<T> {
    type V = Seq<T>;

    closed spec fn view(&self) -> Seq<T> {
        self.items@
    }
}

impl<T> BoundedLog<T> {
    /// The capacity.
    pub closed spec fn capacity(&self) -> nat {
        self.cap as nat
    }

    /// An empty log that keeps up to `cap` items.
    pub fn with_capacity(cap: usize) -> (r: BoundedLog<T>)
        ensures
            r@ == Seq::<T>::empty(),
            r.capacity() == cap,
    {
        BoundedLog { cap, items: VecDeque::new() }
    }

    /// An empty log without a practical bound.
    pub fn new() -> (r: BoundedLog<T>)
        ensures
            r@ == Seq::<T>::empty(),
            r.capacity() == usize::MAX,
    {
        BoundedLog::with_capacity(usize::MAX)
    }

    /// Appends `x`, dropping the oldest item when full.
    pub fn append(&mut self, x: T)
        ensures
            final(self)@ == log_step(old(self)@, old(self).capacity(), x),
            final(self).capacity() == old(self).capacity(),
    {
        if self.items.len() == self.cap {
            let _ = self.items.pop_front();
        }
        self.items.push_back(x);
    }

    /// The number of items.
    pub fn len(&self) -> (n: usize)
        ensures
            n == self@.len(),
    {
        self.items.len()
    }

    /// The item at `i` (0 is the oldest).
    pub fn get(&self, i: usize) -> (r: &T)
        requires
            i < self@.len(),
        ensures
            *r == self@[i as int],
    {
        &self.items[i]
    }
}

/// The positions a query returns, given whether each item matches, oldest
/// first: the matching ones, stopping after the one that brings the count
/// to the limit (a limit of 0 still lets the first match through, as the
/// count is checked after each addition).
pub open spec fn query_positions(matches: Seq<bool>, limit: Option<usize>) -> Seq<usize>
    decreases matches.len(),
{
    if matches.len() == 0 {
        Seq::empty()
    } else {
        let p = query_positions(matches.drop_last(), limit);
        let full = match limit {
            Some(l) => p.len() >= l && p.len() > 0,
            None => false,
        };
        if full || !matches.last() {
            p
        } else {
            p.push((matches.len() - 1) as usize)
        }
    }
}

/// The positions a query returns (see `query_positions`).
pub fn select_positions(matches: &Vec<bool>, limit: Option<usize>) -> (r: Vec<usize>)
    ensures
        r@ == query_positions(matches@, limit),
{
    let mut out: Vec<usize> = Vec::new();
    let mut i: usize = 0;
    proof {
        assert(matches@.take(0) =~= Seq::<bool>::empty());
    }
    while i < matches.len()
        invariant
            i <= matches.len(),
            out@ == query_positions(matches@.take(i as int), limit),
            out@.len() <= i,
        decreases matches.len() - i,
    {
        proof {
            assert(matches@.take(i as int + 1).drop_last() =~= matches@.take(i as int));
            assert(matches@.take(i as int + 1).last() == matches@[i as int]);
        }
        let full = match limit {
            Some(l) => out.len() >= l && out.len() > 0,
            None => false,
        };
        if !full && matches[i] {
            out.push(i);
        }
        i = i + 1;
    }
    proof {
        assert(matches@.take(matches.len() as int) =~= matches@);
    }
    out
}

} // verus!
