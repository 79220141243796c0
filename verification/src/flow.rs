//! The four channels of a flow and its sequence numbering: every envelope a
//! flow publishes gets the next number, starting at 1.

use vstd::prelude::*;
use vstd::wrapping::u64_specs;

verus! {

/// Main channel capacity.
pub const MAIN_CAPACITY: usize = 64;
/// Consolidation channel capacity.
pub const CONSOLIDATION_CAPACITY: usize = 256;
/// Monitoring channel capacity.
pub const MONITORING_CAPACITY: usize = 64;
/// System channel capacity.
pub const SYSTEM_CAPACITY: usize = 128;

/// Which channel an envelope goes to.
#[derive(Debug, Clone, Copy, PartialEq, Eq)]
pub enum FlowChannel {
    /// Main agent decision-action loop.
    Main,
    /// Sidecar consolidator.
    Consolidation,
    /// Sidecar monitor.
    Monitoring,
    /// System events (heartbeats, configuration, shutdown).
    System,
}

/// The capacity of each channel.
pub open spec fn capacity_of(c: FlowChannel) -> usize {
    match c {
        FlowChannel::Main => MAIN_CAPACITY,
        FlowChannel::Consolidation => CONSOLIDATION_CAPACITY,
        FlowChannel::Monitoring => MONITORING_CAPACITY,
        FlowChannel::System => SYSTEM_CAPACITY,
    }
}

impl FlowChannel {
    /// The capacity of this channel.
    pub fn capacity(&self) -> (n: usize)
        ensures
            n == capacity_of(*self),
    {
        match self {
            FlowChannel::Main => MAIN_CAPACITY,
            FlowChannel::Consolidation => CONSOLIDATION_CAPACITY,
            FlowChannel::Monitoring => MONITORING_CAPACITY,
            FlowChannel::System => SYSTEM_CAPACITY,
        }
    }
}

/// The sequence counter shared by the clones of a flow handle.
pub struct SequenceCounter {
    next: u64,
}

impl View for SequenceCounter {
    /// The number the next envelope gets.
    type V = u64;

    closed spec fn view(&self) -> u64 {
        self.next
    }
}

impl SequenceCounter {
    /// A counter whose first number is 1.
    pub fn new() -> (r: SequenceCounter)
        ensures
            r@ == 1,
    {
        SequenceCounter { next: 1 }
    }

    /// Hands out the next number (the counter wraps at `u64::MAX`).
    pub fn assign(&mut self) -> (n: u64)
        ensures
            n == old(self)@,
            final(self)@ == u64_specs::wrapping_add(old(self)@, 1),
    {
        let n = self.next;
        self.next = self.next.wrapping_add(1);
        n
    }

    /// The number an envelope carries once published: its own when it has
    /// one, else the next number (0 means unassigned).
    pub fn assign_if_unset(&mut self, current: u64) -> (n: u64)
        ensures
            current != 0 ==> n == current && final(self)@ == old(self)@,
            current == 0 ==> n == old(self)@ && final(self)@ == u64_specs::wrapping_add(
                old(self)@,
                1,
            ),
    {
        if current == 0 {
            self.assign()
        } else {
            current
        }
    }

    /// The number the next envelope gets.
    pub fn next_sequence(&self) -> (n: u64)
        ensures
            n == self@,
    {
        self.next
    }

    /// How many numbers were handed out (saturating at 0).
    pub fn sequence_count(&self) -> (n: u64)
        ensures
            n == (if self@ == 0 { 0 } else { self@ - 1 }),
    {
        if self.next == 0 {
            0
        } else {
            self.next - 1
        }
    }
}

} // verus!
