//! Subscription-side settings: ids, backpressure policy, group dispatch
//! strategy, acknowledgement mode and requeue mode.

use vstd::prelude::*;

verus! {

/// Default visibility window of explicit acknowledgement, in milliseconds.
pub const DEFAULT_VISIBILITY_MS: u64 = 30000;

/// Default number of delivery attempts of explicit acknowledgement.
pub const DEFAULT_MAX_ATTEMPTS: u32 = 5;

/// Unique broker-assigned id of a subscription.
#[derive(Debug, Clone, Copy, PartialEq, Eq, Hash)]
pub struct SubId(pub u64);

/// What to do when a subscriber's buffer is full.
#[derive(Debug, Clone, Copy, PartialEq, Eq)]
pub enum BackpressurePolicy {
    /// Wait for capacity (the publisher is throttled by the slowest consumer).
    Block,
    /// Drop the incoming envelope for this subscriber.
    DropNewest,
    /// Drop the oldest queued envelope to make room for the new one.
    DropOldest,
    /// Disconnect the subscriber on the first overflow.
    Disconnect,
}

impl Default for BackpressurePolicy {
    fn default() -> (r: Self)
        ensures
            r == BackpressurePolicy::Block,
    {
        BackpressurePolicy::Block
    }
}

/// How a consumer group picks the member that gets an envelope.
#[derive(Debug, Clone)]
pub enum GroupStrategy {
    /// Round-robin across the matching members.
    RoundRobin,
    /// Hash the value of header `header_key` to pick a member; the same
    /// value lands on the same member while membership is stable.
    KeyHash { header_key: String },
}

impl Default for GroupStrategy {
    fn default() -> (r: Self)
        ensures
            r is RoundRobin,
    {
        GroupStrategy::RoundRobin
    }
}

/// Acknowledgement mode of a subscription.
#[derive(Debug, Clone)]
pub enum AckMode {
    /// Fire and forget.
    Auto,
    /// The consumer acknowledges within `visibility_ms`, or the broker
    /// delivers again, up to `max_attempts`; after the last attempt the
    /// envelope goes to `dlq_topic` if set, otherwise it is dropped.
    Explicit { visibility_ms: u64, max_attempts: u32, dlq_topic: Option<String> },
}

impl Default for AckMode {
    fn default() -> (r: Self)
        ensures
            r is Auto,
    {
        AckMode::Auto
    }
}

impl AckMode {
    /// Explicit acknowledgement with a 30 s window, 5 attempts, no DLQ.
    pub fn explicit() -> (r: AckMode)
        ensures
            r matches AckMode::Explicit { visibility_ms, max_attempts, dlq_topic } && visibility_ms
                == DEFAULT_VISIBILITY_MS && max_attempts == DEFAULT_MAX_ATTEMPTS && dlq_topic is None,
    {
        AckMode::Explicit {
            visibility_ms: DEFAULT_VISIBILITY_MS,
            max_attempts: DEFAULT_MAX_ATTEMPTS,
            dlq_topic: None,
        }
    }

    /// Sets the visibility window (in milliseconds) of explicit mode; leaves
    /// `Auto` unchanged.
    pub fn with_visibility(self, ms: u64) -> (r: AckMode)
        ensures
            self matches AckMode::Explicit { visibility_ms: _, max_attempts, dlq_topic } ==> r
                == (AckMode::Explicit { visibility_ms: ms, max_attempts, dlq_topic }),
            self is Auto ==> r is Auto,
    {
        match self {
            AckMode::Explicit { visibility_ms: _, max_attempts, dlq_topic } => AckMode::Explicit {
                visibility_ms: ms,
                max_attempts,
                dlq_topic,
            },
            AckMode::Auto => AckMode::Auto,
        }
    }

    /// Sets the number of attempts of explicit mode; leaves `Auto` unchanged.
    pub fn with_max_attempts(self, n: u32) -> (r: AckMode)
        ensures
            self matches AckMode::Explicit { visibility_ms, max_attempts: _, dlq_topic } ==> r
                == (AckMode::Explicit { visibility_ms, max_attempts: n, dlq_topic }),
            self is Auto ==> r is Auto,
    {
        match self {
            AckMode::Explicit { visibility_ms, max_attempts: _, dlq_topic } => AckMode::Explicit {
                visibility_ms,
                max_attempts: n,
                dlq_topic,
            },
            AckMode::Auto => AckMode::Auto,
        }
    }

    /// Sets the dead-letter topic of explicit mode; leaves `Auto` unchanged.
    pub fn with_dlq(self, topic: &str) -> (r: AckMode)
        ensures
            self matches AckMode::Explicit { visibility_ms, max_attempts, dlq_topic: _ } ==> (r
                matches AckMode::Explicit { visibility_ms: v, max_attempts: m, dlq_topic: Some(t) }
                && v == visibility_ms && m == max_attempts && t@ == topic@),
            self is Auto ==> r is Auto,
    {
        match self {
            AckMode::Explicit { visibility_ms, max_attempts, dlq_topic: _ } => AckMode::Explicit {
                visibility_ms,
                max_attempts,
                dlq_topic: Some(topic.to_owned()),
            },
            AckMode::Auto => AckMode::Auto,
        }
    }
}

/// Why `try_recv` on a subscription returned no envelope.
#[derive(Debug, Clone, Copy, PartialEq, Eq)]
pub enum TryRecvError {
    Empty,
    Disconnected,
}

/// How to handle a negative acknowledgement.
#[derive(Debug, Clone)]
pub enum Requeue {
    /// Deliver again at once (counts as one attempt).
    Immediate,
    /// Deliver again after this many milliseconds.
    Delay(u64),
    /// Send straight to the dead-letter topic (or drop without one).
    Dead,
}

} // verus!
