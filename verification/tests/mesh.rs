use uwu_infra::broker::{
    admit_publish, admit_remote, dead_letter_topic, delivery_outcome, key_hash_of, is_expired_after,
    track_delivery, Admission, DeliveryOutcome, FanoutTally, InflightEntry, InflightTable,
    Redelivery, Registry, SendAttempt,
};
use uwu_infra::dedup::DedupRing;
use uwu_infra::event_kind::{check_namespace, namespace_pattern, EventKind};
use uwu_infra::flow::{FlowChannel, SequenceCounter};
use uwu_infra::idempotency::{
    after_handler, before_handler, AfterHandler, BeforeHandler, DedupKey, IdempotencyStore,
    MemoryIdempotencyStore, ProcessedKeys,
};
use uwu_infra::mesh_error::EventMeshError;
use uwu_infra::ring::{RingBuffer, SendOutcome, TryRecvError};
use uwu_infra::strmap::StrMap;
use uwu_infra::subscriber::{AckMode, BackpressurePolicy, GroupStrategy, SubId};
use uwu_infra::topic::TopicPattern;

fn pat(s: &str) -> TopicPattern {
    TopicPattern::new(s).unwrap()
}

fn no_headers() -> StrMap<String> {
    StrMap::new()
}

#[test]
fn drop_oldest_pops_front() {
    let mut ring: RingBuffer<u32> = RingBuffer::new(3);
    for i in 0..5u32 {
        ring.send(i);
    }
    let mut got = Vec::new();
    while let Ok(v) = ring.try_recv() {
        got.push(v);
    }
    assert_eq!(got, vec![2, 3, 4]);
}

#[test]
fn ring_reports_eviction_and_closing() {
    let mut ring: RingBuffer<u32> = RingBuffer::new(0);
    assert_eq!(ring.send(1), SendOutcome::Enqueued);
    assert_eq!(ring.send(2), SendOutcome::EvictedOldest);
    assert_eq!(ring.queued(), 1);
    ring.add_sender();
    ring.drop_sender();
    assert!(!ring.is_closed());
    ring.drop_sender();
    assert!(ring.is_closed());
    assert_eq!(ring.send(3), SendOutcome::Closed);
    assert_eq!(ring.try_recv(), Ok(2));
    assert_eq!(ring.try_recv(), Err(TryRecvError::Disconnected));
}

#[test]
fn ring_empty_while_senders_remain() {
    let mut ring: RingBuffer<u8> = RingBuffer::new(2);
    assert_eq!(ring.try_recv(), Err(TryRecvError::Empty));
}

#[test]
fn dedup_window_remembers_recent_pairs() {
    let mut d = DedupRing::new(2);
    assert!(!d.check_and_insert("x.y", "k1"));
    assert!(d.check_and_insert("x.y", "k1"));
    assert!(!d.check_and_insert("x.z", "k1"));
    assert!(!d.check_and_insert("x.y", "k2"));
    // k1 on x.y was evicted by the two newer pairs.
    assert!(!d.check_and_insert("x.y", "k1"));
}

#[test]
fn dedup_window_of_zero_remembers_nothing() {
    let mut d = DedupRing::new(0);
    assert!(!d.check_and_insert("t", "k"));
    assert!(!d.check_and_insert("t", "k"));
    assert_eq!(admit_remote(&mut d, false, false, "id-1", "a.b").unwrap(), Admission::Deliver);
    assert_eq!(admit_remote(&mut d, false, false, "id-1", "a.b").unwrap(), Admission::Deliver);
}

#[test]
fn idempotency() {
    let mut d = DedupRing::new(4096);
    assert_eq!(admit_publish(&mut d, false, false, Some("k1"), "x.y").unwrap(), Admission::Deliver);
    assert_eq!(admit_publish(&mut d, false, false, Some("k1"), "x.y").unwrap(), Admission::Skip);
}

#[test]
fn publish_checks_in_order() {
    let mut d = DedupRing::new(8);
    assert!(matches!(admit_publish(&mut d, true, false, None, "a.b"), Err(EventMeshError::Closed)));
    assert_eq!(admit_publish(&mut d, false, true, None, "a.b").unwrap(), Admission::Skip);
    assert!(matches!(admit_publish(&mut d, false, false, None, "a..b"), Err(EventMeshError::InvalidTopic(_))));
    assert_eq!(admit_publish(&mut d, false, false, None, "a.b").unwrap(), Admission::Deliver);
    assert_eq!(admit_remote(&mut d, false, false, "id-1", "a.b").unwrap(), Admission::Deliver);
    assert_eq!(admit_remote(&mut d, false, false, "id-1", "a.b").unwrap(), Admission::Skip);
}

#[test]
fn expiry_after_ttl() {
    assert!(!is_expired_after(None, 1_000_000));
    assert!(!is_expired_after(Some(100), 100));
    assert!(is_expired_after(Some(100), 101));
    assert!(!is_expired_after(Some(0), -5));
}

#[test]
fn key_hash_known_values() {
    assert_eq!(key_hash_of(b""), 1469598103934665603);
    let mut h: u64 = 1469598103934665603;
    for b in b"stable" {
        h ^= *b as u64;
        h = h.wrapping_mul(1099511628211);
    }
    assert_eq!(key_hash_of(b"stable"), h);
    assert_eq!(key_hash_of(b"a"), (1469598103934665603u64 ^ 97).wrapping_mul(1099511628211));
}

#[test]
fn wildcard() {
    let mut r = Registry::new();
    let (a, start_a) = r.register(pat("flow.*.created"), BackpressurePolicy::Block, false, None, GroupStrategy::RoundRobin, AckMode::Auto);
    let (b, _) = r.register(pat("flow.>"), BackpressurePolicy::Block, false, None, GroupStrategy::RoundRobin, AckMode::Auto);
    let (_c, _) = r.register(pat("other.>"), BackpressurePolicy::Block, false, None, GroupStrategy::RoundRobin, AckMode::Auto);
    assert!(!start_a);
    assert_eq!(a, SubId(1));
    assert_eq!(b, SubId(2));
    let targets = r.plan_fanout("flow.order.created", &no_headers());
    assert_eq!(targets, vec![a, b]);
}

#[test]
fn consumer_group_round_robin() {
    let mut r = Registry::new();
    let (a, _) = r.register(pat("g.>"), BackpressurePolicy::Block, false, Some("workers".to_string()), GroupStrategy::RoundRobin, AckMode::Auto);
    let (b, _) = r.register(pat("g.>"), BackpressurePolicy::Block, false, Some("workers".to_string()), GroupStrategy::RoundRobin, AckMode::Auto);
    let mut a_got = 0;
    let mut b_got = 0;
    for _ in 0..6 {
        let t = r.plan_fanout("g.task", &no_headers());
        assert_eq!(t.len(), 1);
        if t[0] == a {
            a_got += 1;
        } else if t[0] == b {
            b_got += 1;
        }
    }
    assert_eq!(a_got + b_got, 6);
    assert!(a_got > 0 && b_got > 0, "both should get some");
    assert_eq!(r.subscriber_count(), 2);
}

#[test]
fn consumer_group_keyhash_sticky() {
    let mut r = Registry::new();
    let strategy = || GroupStrategy::KeyHash { header_key: "k".to_string() };
    let (a, _) = r.register(pat("kh.>"), BackpressurePolicy::Block, false, Some("workers".to_string()), strategy(), AckMode::Auto);
    let (b, _) = r.register(pat("kh.>"), BackpressurePolicy::Block, false, Some("workers".to_string()), strategy(), AckMode::Auto);
    let mut headers: StrMap<String> = StrMap::new();
    headers.insert("k".to_string(), "stable".to_string());
    let mut a_got = 0;
    let mut b_got = 0;
    for _ in 0..10 {
        let t = r.plan_fanout("kh.task", &headers);
        if t[0] == a {
            a_got += 1;
        } else if t[0] == b {
            b_got += 1;
        }
    }
    assert_eq!(a_got + b_got, 10);
    assert!(a_got == 10 || b_got == 10, "all same key → one member");
}

#[test]
fn drop_subscription_detaches() {
    let mut r = Registry::new();
    let (id, _) = r.register(pat("x.>"), BackpressurePolicy::Block, false, None, GroupStrategy::RoundRobin, AckMode::Auto);
    assert_eq!(r.subscriber_count(), 1);
    r.detach(id, None);
    assert_eq!(r.subscriber_count(), 0);
    let (g, _) = r.register(pat("x.>"), BackpressurePolicy::Block, false, Some("w".to_string()), GroupStrategy::RoundRobin, AckMode::Auto);
    assert_eq!(r.subscriber_count(), 1);
    r.detach(g, Some("w"));
    assert_eq!(r.subscriber_count(), 0);
    assert!(r.plan_fanout("x.y", &no_headers()).is_empty());
}

#[test]
fn purge_removes_closed_subscriber_everywhere() {
    let mut r = Registry::new();
    let (a, _) = r.register(pat("p.>"), BackpressurePolicy::Block, false, None, GroupStrategy::RoundRobin, AckMode::Auto);
    let (b, _) = r.register(pat("p.>"), BackpressurePolicy::Block, false, Some("g".to_string()), GroupStrategy::RoundRobin, AckMode::Auto);
    r.purge(b);
    assert_eq!(r.plan_fanout("p.q", &no_headers()), vec![a]);
    r.clear();
    assert_eq!(r.subscriber_count(), 0);
}

#[test]
fn explicit_ack_starts_redelivery_once() {
    let mut r = Registry::new();
    let (_, s1) = r.register(pat("a.>"), BackpressurePolicy::Block, false, None, GroupStrategy::RoundRobin, AckMode::explicit());
    let (_, s2) = r.register(pat("a.>"), BackpressurePolicy::Block, false, None, GroupStrategy::RoundRobin, AckMode::explicit());
    assert!(s1);
    assert!(!s2);
}

#[test]
fn delivery_outcomes_by_policy() {
    assert_eq!(delivery_outcome(BackpressurePolicy::DropNewest, SendAttempt::Full), DeliveryOutcome::Dropped);
    assert_eq!(delivery_outcome(BackpressurePolicy::Disconnect, SendAttempt::Full), DeliveryOutcome::Closed);
    assert_eq!(delivery_outcome(BackpressurePolicy::Block, SendAttempt::Accepted), DeliveryOutcome::Delivered);
    assert_eq!(delivery_outcome(BackpressurePolicy::DropOldest, SendAttempt::Closed), DeliveryOutcome::Closed);
    let mut t = FanoutTally::new();
    t.record(DeliveryOutcome::Delivered, false);
    t.record(DeliveryOutcome::Closed, true);
    t.record(DeliveryOutcome::Dropped, false);
    assert_eq!(t.delivered, 1);
    assert!(t.dead_groups);
    assert!(!t.dead_direct);
}

fn entry(sub: u64, env: u128, deadline: u64, attempts: u32, max: u32, group: Option<&str>, dlq: Option<&str>) -> InflightEntry {
    InflightEntry {
        sub_id: SubId(sub),
        env_id: env,
        topic: "d.task".to_string(),
        group: group.map(|g| g.to_string()),
        visibility_ms: 80,
        max_attempts: max,
        dlq_topic: dlq.map(|d| d.to_string()),
        deadline_ms: deadline,
        attempts,
    }
}

#[test]
fn inflight_ack_and_expiry() {
    let mut t = InflightTable::new();
    t.insert(entry(1, 10, 100, 1, 3, None, None));
    t.insert(entry(1, 11, 300, 1, 3, None, None));
    t.insert(entry(2, 10, 200, 1, 3, None, None));
    t.insert(entry(1, 10, 150, 2, 3, None, None));
    assert_eq!(t.len(), 3);
    let expired = t.take_expired(160);
    assert_eq!(expired.len(), 1);
    assert_eq!(expired[0].attempts, 2);
    assert_eq!(t.len(), 2);
    assert!(t.take(SubId(2), 10).is_some());
    assert!(t.take(SubId(2), 10).is_none());
    t.drop_subscriber(SubId(1));
    assert_eq!(t.len(), 0);
}

#[test]
fn dlq_after_max_attempts() {
    let mut r = Registry::new();
    let (s, _) = r.register(pat("d.>"), BackpressurePolicy::Block, false, Some("workers".to_string()), GroupStrategy::RoundRobin, AckMode::explicit().with_max_attempts(2).with_dlq("dlq.d"));
    let info = entry(s.0, 1, 0, 2, 2, Some("workers"), Some("dlq.d"));
    assert_eq!(r.plan_redelivery(&info), Redelivery::DeadLetter);
    assert_eq!(dead_letter_topic(&info).unwrap().as_str(), "dlq.d");
    let again = entry(s.0, 1, 0, 1, 2, Some("workers"), None);
    assert_eq!(r.plan_redelivery(&again), Redelivery::Deliver { sub: s, attempt: 2 });
    assert!(dead_letter_topic(&again).is_none());
}

#[test]
fn redelivery_redispatches_to_group_when_subscriber_left() {
    let mut r = Registry::new();
    let (a, _) = r.register(pat("d.>"), BackpressurePolicy::Block, false, Some("w".to_string()), GroupStrategy::RoundRobin, AckMode::explicit());
    let (b, _) = r.register(pat("d.>"), BackpressurePolicy::Block, false, Some("w".to_string()), GroupStrategy::RoundRobin, AckMode::explicit());
    r.detach(a, Some("w"));
    let info = entry(a.0, 1, 0, 1, 5, Some("w"), None);
    assert_eq!(r.plan_redelivery(&info), Redelivery::Redispatch { sub: b, attempt: 2 });
    let lone = entry(a.0, 1, 0, 1, 5, None, None);
    assert_eq!(r.plan_redelivery(&lone), Redelivery::GiveUp);
}

#[test]
fn tracking_only_for_explicit_ack() {
    let mut r = Registry::new();
    let (_, _) = r.register(pat("t.>"), BackpressurePolicy::Block, false, None, GroupStrategy::RoundRobin, AckMode::explicit().with_visibility(150));
    let _ = r;
    let sub = uwu_infra::broker::SubscriberEntry {
        id: SubId(7),
        pattern: pat("t.>"),
        policy: BackpressurePolicy::Block,
        has_filter: false,
        group: None,
        ack: AckMode::explicit().with_visibility(150),
    };
    let e = track_delivery(&sub, 9, "t.x", 1000, 1).unwrap();
    assert_eq!(e.deadline_ms, 1150);
    assert_eq!(e.attempts, 1);
    let auto = uwu_infra::broker::SubscriberEntry { ack: AckMode::Auto, ..sub };
    assert!(track_delivery(&auto, 9, "t.x", 1000, 1).is_none());
}

#[test]
fn sequence_numbers_monotonic() {
    let mut c = SequenceCounter::new();
    assert_eq!(c.assign(), 1);
    assert_eq!(c.assign(), 2);
    assert_eq!(c.assign_if_unset(42), 42);
    assert_eq!(c.assign_if_unset(0), 3);
    assert_eq!(c.next_sequence(), 4);
    assert_eq!(c.sequence_count(), 3);
    assert_eq!(FlowChannel::Consolidation.capacity(), 256);
    assert_eq!(FlowChannel::Main.capacity(), 64);
}

#[test]
fn dedup_key_extraction() {
    assert_eq!(DedupKey::EnvelopeId.extract("id", Some("k")), "id");
    assert_eq!(DedupKey::IdempotencyKey.extract("id", Some("k")), "k");
    assert_eq!(DedupKey::IdempotencyKey.extract("id", None), "id");
    assert_eq!(DedupKey::default(), DedupKey::EnvelopeId);
}

#[test]
fn processed_keys_forget_oldest() {
    let mut store = MemoryIdempotencyStore::new(2);
    assert!(!store.is_processed("a").unwrap());
    store.mark_processed("a").unwrap();
    store.mark_processed("b").unwrap();
    store.mark_processed("a").unwrap();
    assert!(store.is_processed("a").unwrap());
    store.mark_processed("c").unwrap();
    assert!(!store.is_processed("a").unwrap());
    assert!(store.is_processed("b").unwrap());
    let mut k = ProcessedKeys::new(0);
    k.mark("x");
    assert!(k.contains("x"));
    assert_eq!(before_handler(&Ok(true)), BeforeHandler::AckAndSkip);
    assert_eq!(before_handler(&Err(EventMeshError::NoStore)), BeforeHandler::Run);
    assert_eq!(after_handler(false), AfterHandler::NackImmediate);
}

#[test]
fn event_kind_topics() {
    let k: EventKind<u32> = EventKind::new("flow.order", "created").unwrap();
    assert_eq!(k.topic_str(), "flow.order.created");
    assert_eq!(k.topic().as_str(), "flow.order.created");
    assert!(EventKind::<u32>::new("flow..order", "x").is_err());
    assert!(check_namespace("flow.order").is_ok());
    assert!(check_namespace("flow.*").is_err());
    let p = namespace_pattern("flow.order").unwrap();
    assert!(p.matches_str("flow.order.cancelled"));
}

#[test]
fn ack_mode_builders() {
    match AckMode::explicit().with_visibility(150).with_max_attempts(3).with_dlq("dlq.d") {
        AckMode::Explicit { visibility_ms, max_attempts, dlq_topic } => {
            assert_eq!(visibility_ms, 150);
            assert_eq!(max_attempts, 3);
            assert_eq!(dlq_topic.as_deref(), Some("dlq.d"));
        }
        AckMode::Auto => panic!("expected explicit"),
    }
    assert!(matches!(AckMode::Auto.with_max_attempts(3), AckMode::Auto));
    assert_eq!(BackpressurePolicy::default(), BackpressurePolicy::Block);
}
