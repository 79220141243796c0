use uwu_infra::mesh_error::EventMeshError;
use uwu_infra::topic::{Topic, TopicPattern};
use uwu_infra::type_id::TypeId;

#[test]
fn exact_match() {
    let p = TopicPattern::new("flow.order.created").unwrap();
    assert!(p.matches(&Topic::new("flow.order.created").unwrap()));
    assert!(!p.matches(&Topic::new("flow.order.updated").unwrap()));
}

#[test]
fn star_match() {
    let p = TopicPattern::new("flow.*.created").unwrap();
    assert!(p.matches(&Topic::new("flow.order.created").unwrap()));
    assert!(p.matches(&Topic::new("flow.user.created").unwrap()));
    assert!(!p.matches(&Topic::new("flow.order.updated").unwrap()));
    assert!(!p.matches(&Topic::new("flow.order.x.created").unwrap()));
}

#[test]
fn gt_match() {
    let p = TopicPattern::new("flow.>").unwrap();
    assert!(p.matches(&Topic::new("flow.order").unwrap()));
    assert!(p.matches(&Topic::new("flow.order.created").unwrap()));
    assert!(!p.matches(&Topic::new("flow").unwrap()));
    assert!(!p.matches(&Topic::new("agent.order").unwrap()));
}

#[test]
fn invalid() {
    assert!(Topic::new("").is_err());
    assert!(Topic::new("a..b").is_err());
    assert!(Topic::new("a.*").is_err());
    assert!(TopicPattern::new("a.>.b").is_err());
}

#[test]
fn type_id_roundtrip() {
    let tid = TypeId::new("state", "snapshot");
    assert_eq!(tid.to_string(), "state.snapshot");
    let parsed = TypeId::parse("state.snapshot").unwrap();
    assert_eq!(tid, parsed);
}

#[test]
fn type_id_parse_invalid() {
    assert!(TypeId::parse("").is_none());
    assert!(TypeId::parse("no_dot").is_none());
    assert!(TypeId::parse(".leading").is_none());
    assert!(TypeId::parse("trailing.").is_none());
}

#[test]
fn type_id_parse_splits_at_first_dot() {
    let t = TypeId::parse("a.b.c").unwrap();
    assert_eq!(t.domain, "a");
    assert_eq!(t.event, "b.c");
}

#[test]
fn topic_error_messages() {
    match Topic::new("") {
        Err(EventMeshError::InvalidTopic(m)) => assert_eq!(m, "empty"),
        other => panic!("unexpected {:?}", other),
    }
    match Topic::new("a..b") {
        Err(EventMeshError::InvalidTopic(m)) => assert_eq!(m, "a..b"),
        other => panic!("unexpected {:?}", other),
    }
    match Topic::new("a.b*") {
        Err(EventMeshError::InvalidTopic(m)) => {
            assert_eq!(m, "wildcards not allowed in concrete topic: a.b*")
        }
        other => panic!("unexpected {:?}", other),
    }
    match TopicPattern::new("a.>.b") {
        Err(EventMeshError::InvalidPattern(m)) => assert_eq!(m, "`>` must be the last segment: a.>.b"),
        other => panic!("unexpected {:?}", other),
    }
    match TopicPattern::new("a.b*") {
        Err(EventMeshError::InvalidPattern(m)) => assert_eq!(m, "a.b*"),
        other => panic!("unexpected {:?}", other),
    }
    match TopicPattern::new("") {
        Err(EventMeshError::InvalidPattern(m)) => assert_eq!(m, "empty"),
        other => panic!("unexpected {:?}", other),
    }
}

#[test]
fn pattern_matches_segments_and_str() {
    let p = TopicPattern::new("a.*.c").unwrap();
    assert!(p.matches_segments(&["a", "b", "c"]));
    assert!(!p.matches_segments(&["a", "b"]));
    assert!(p.matches_str("a.x.c"));
    assert!(!p.matches_str("a.x.c.d"));
    let tail = TopicPattern::new(">").unwrap();
    assert!(tail.matches_str("anything.at.all"));
    assert!(Topic::new("a.b").unwrap().as_str() == "a.b");
}
