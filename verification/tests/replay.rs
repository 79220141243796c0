use uwu_infra::replay::{is_before, millis, ReplayFilter};

#[test]
fn empty_filter_admits_everything() {
    let f = ReplayFilter::all();
    assert!(f.matches("a.b", 7, (0, 0)));
    assert!(f.topic_matches("anything.at.all"));
    assert_eq!(f.candidate_cap(), None);
}

#[test]
fn topic_root_and_bounds_are_all_checked() {
    let f = ReplayFilter::topic("orders.*")
        .unwrap()
        .with_root(42)
        .with_since((100, 0))
        .with_until((200, 500))
        .with_limit(3);
    assert!(f.matches("orders.created", 42, (100, 0)));
    assert!(f.matches("orders.created", 42, (200, 500)));
    assert!(!f.matches("orders.created", 42, (99, 999_999_999)));
    assert!(!f.matches("orders.created", 42, (200, 501)));
    assert!(!f.matches("orders.created", 41, (150, 0)));
    assert!(!f.matches("orders.created.x", 42, (150, 0)));
    assert!(!f.matches("users.created", 42, (150, 0)));
    assert_eq!(f.limit, Some(3));
    assert_eq!(f.candidate_cap(), None);
}

#[test]
fn candidates_are_capped_for_topic_queries_without_root() {
    let f = ReplayFilter::topic("a.>").unwrap().with_limit(5);
    assert_eq!(f.candidate_cap(), Some(5));
    assert!(f.topic_matches("a.b.c"));
    assert!(!f.topic_matches("b.c"));
    assert_eq!(ReplayFilter::all().with_limit(5).candidate_cap(), None);
}

#[test]
fn bad_replay_pattern_is_refused() {
    assert!(ReplayFilter::topic("a.>.b").is_err());
    assert!(ReplayFilter::topic("").is_err());
}

#[test]
fn instants_order_and_convert_to_millis() {
    assert!(is_before((1, 5), (1, 6)));
    assert!(is_before((1, 999_999_999), (2, 0)));
    assert!(!is_before((2, 0), (2, 0)));
    assert_eq!(millis((1, 999_999_999)), Some(1999));
    assert_eq!(millis((-1, 500_000_000)), Some(-500));
    assert_eq!(millis((i64::MAX, 0)), None);
}
