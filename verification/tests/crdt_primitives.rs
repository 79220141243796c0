use uwu_infra::counter::{GCounter, PNCounter};
use uwu_infra::crdt::merge;
use uwu_infra::lww_map::LwwMap;
use uwu_infra::lww_register::LWWRegister;
use uwu_infra::or_set::ORSet;
use uwu_infra::vector_clock::VectorClock;

// ---- counters ----

#[test]
fn gcounter_single_node() {
    let mut c = GCounter::new();
    c.inc("A", 5);
    c.inc("A", 3);
    assert_eq!(c.value(), 8);
}

#[test]
fn gcounter_multi_node_merge() {
    let mut c1 = GCounter::new();
    c1.inc("A", 3);
    c1.inc("A", 2);
    let mut c2 = GCounter::new();
    c2.inc("B", 4);
    let merged = c1.merge(&c2);
    assert_eq!(merged.value(), 9);
}

#[test]
fn gcounter_idempotent() {
    let mut c = GCounter::new();
    c.inc("A", 5);
    let merged = c.merge(&c);
    assert_eq!(merged.value(), 5);
}

#[test]
fn gcounter_commutative() {
    let mut c1 = GCounter::new();
    c1.inc("A", 3);
    let mut c2 = GCounter::new();
    c2.inc("B", 7);
    let m12 = c1.merge(&c2);
    let m21 = c2.merge(&c1);
    assert_eq!(m12.value(), m21.value());
}

#[test]
fn gcounter_associative() {
    let mut c1 = GCounter::new();
    c1.inc("A", 1);
    let mut c2 = GCounter::new();
    c2.inc("B", 2);
    let mut c3 = GCounter::new();
    c3.inc("C", 3);
    let m12_3 = c1.merge(&c2).merge(&c3);
    let m1_23 = c1.merge(&c2.merge(&c3));
    assert_eq!(m12_3.value(), m1_23.value());
}

#[test]
fn gcounter_merge_keeps_max_not_sum_per_node() {
    let mut a = GCounter::new();
    a.inc("A", 5);
    let mut b = GCounter::new();
    b.inc("A", 3);
    assert_eq!(a.merge(&b).value(), 5);
}

#[test]
fn pn_counter_inc_and_dec() {
    let mut c = PNCounter::new();
    c.inc("A", 10);
    c.dec("A", 3);
    assert_eq!(c.value(), 7);
}

#[test]
fn pn_counter_merge() {
    let mut c1 = PNCounter::new();
    c1.inc("A", 10);
    c1.dec("A", 4);
    let mut c2 = PNCounter::new();
    c2.inc("B", 5);
    c2.dec("B", 1);
    let merged = c1.merge(&c2);
    assert_eq!(merged.value(), 10);
}

#[test]
fn pn_counter_value_can_go_negative() {
    let mut c = PNCounter::new();
    c.inc("A", 2);
    c.dec("B", 5);
    assert_eq!(c.value(), -3);
}

#[test]
fn generic_merge_helper_matches_method() {
    let mut a = GCounter::new();
    a.inc("A", 4);
    let mut b = GCounter::new();
    b.inc("A", 6);
    b.inc("B", 1);
    assert_eq!(merge(&a, &b).value(), 7);
}

// ---- lww map ----

#[test]
fn set_get_remove() {
    let mut m: LwwMap<String, String> = LwwMap::new();
    m.set("theme".into(), "dark".into(), 1, "A");
    m.set("lang".into(), "zh".into(), 1, "A");
    assert_eq!(m.get(&"theme".into()), Some(&"dark".to_string()));
    assert_eq!(m.len(), 2);

    m.remove("theme".into(), 2, "A");
    assert!(!m.contains(&"theme".into()));
    assert_eq!(m.len(), 1);
}

#[test]
fn lower_clock_ignored() {
    let mut m: LwwMap<String, String> = LwwMap::new();
    m.set("k".into(), "v1".into(), 5, "A");
    m.set("k".into(), "v2".into(), 3, "A");
    assert_eq!(m.get(&"k".into()), Some(&"v1".to_string()));
}

#[test]
fn tie_break_by_node_id() {
    let mut a: LwwMap<String, String> = LwwMap::new();
    let mut b: LwwMap<String, String> = LwwMap::new();
    a.set("k".into(), "from-a".into(), 1, "A");
    b.set("k".into(), "from-b".into(), 1, "B");
    let m = a.merge(&b);
    assert_eq!(m.get(&"k".into()), Some(&"from-b".to_string()));
}

#[test]
fn merge_disjoint_keys() {
    let mut a: LwwMap<String, i32> = LwwMap::new();
    let mut b: LwwMap<String, i32> = LwwMap::new();
    a.set("x".into(), 1, 1, "A");
    b.set("y".into(), 2, 1, "B");
    let m = a.merge(&b);
    assert_eq!(m.get(&"x".into()), Some(&1));
    assert_eq!(m.get(&"y".into()), Some(&2));
    assert_eq!(m.len(), 2);
}

#[test]
fn tombstone_beats_older_set() {
    let mut a: LwwMap<String, String> = LwwMap::new();
    let mut b: LwwMap<String, String> = LwwMap::new();
    a.set("k".into(), "v".into(), 1, "A");
    b.remove("k".into(), 2, "B");
    assert!(!a.merge(&b).contains(&"k".into()));
    assert!(!b.merge(&a).contains(&"k".into()));
}

#[test]
fn re_add_after_remove() {
    let mut m: LwwMap<String, String> = LwwMap::new();
    m.set("k".into(), "v1".into(), 1, "A");
    m.remove("k".into(), 2, "A");
    m.set("k".into(), "v2".into(), 3, "A");
    assert_eq!(m.get(&"k".into()), Some(&"v2".to_string()));
}

#[test]
fn idempotent_commutative_associative() {
    let mut a: LwwMap<String, i32> = LwwMap::new();
    a.set("x".into(), 1, 1, "A");
    let mut b: LwwMap<String, i32> = LwwMap::new();
    b.set("y".into(), 2, 1, "B");
    let mut c: LwwMap<String, i32> = LwwMap::new();
    c.set("x".into(), 9, 2, "C");

    let aa = a.merge(&a);
    assert_eq!(aa.get(&"x".into()), Some(&1));

    let ab = a.merge(&b);
    let ba = b.merge(&a);
    assert_eq!(ab.get(&"x".into()), ba.get(&"x".into()));
    assert_eq!(ab.get(&"y".into()), ba.get(&"y".into()));

    let abc = a.merge(&b).merge(&c);
    let a_bc = a.merge(&b.merge(&c));
    assert_eq!(abc.get(&"x".into()), a_bc.get(&"x".into()));
    assert_eq!(abc.get(&"x".into()), Some(&9));
}

#[test]
fn lww_map_iter_lists_visible_entries_in_key_order() {
    let mut m: LwwMap<String, i32> = LwwMap::new();
    m.set("a".into(), 1, 1, "A");
    m.set("b".into(), 2, 1, "A");
    m.set("c".into(), 3, 1, "A");
    m.remove("b".into(), 2, "A");
    let got = m.iter();
    assert_eq!(got, vec![("a".to_string(), 1), ("c".to_string(), 3)]);
    assert!(!m.is_empty());
}

#[test]
fn lww_map_equal_stamp_set_does_not_overwrite() {
    let mut m: LwwMap<String, i32> = LwwMap::new();
    m.set("k".into(), 1, 4, "N");
    m.set("k".into(), 2, 4, "N");
    assert_eq!(m.get(&"k".into()), Some(&1));
}

// ---- lww register ----

#[test]
fn set_higher_clock() {
    let mut r = LWWRegister::new("v1", 1, "A");
    r.set("v2", 3);
    assert_eq!(r.value, "v2");
}

#[test]
fn ignore_lower_clock() {
    let mut r = LWWRegister::new("v1", 5, "A");
    r.set("v2", 3);
    assert_eq!(r.value, "v1");
}

#[test]
fn merge_higher_clock_wins() {
    let r1 = LWWRegister::new("local", 1, "A");
    let r2 = LWWRegister::new("remote", 2, "B");
    let merged = r1.merge(&r2);
    assert_eq!(merged.value, "remote");
}

#[test]
fn merge_tie_break_by_node_id() {
    let r1 = LWWRegister::new("a", 1, "A");
    let r2 = LWWRegister::new("b", 1, "B");
    assert_eq!(r1.merge(&r2).value, "b");
    assert_eq!(r2.merge(&r1).value, "b");
}

#[test]
fn register_node_id_order_is_lexicographic() {
    let r1 = LWWRegister::new("short", 1, "node-9");
    let r2 = LWWRegister::new("long", 1, "node-10");
    // "node-9" > "node-10" lexicographically
    assert_eq!(r1.merge(&r2).value, "short");
    assert_eq!(r2.merge(&r1).value, "short");
}

// ---- or set ----

#[test]
fn add_and_contains() {
    let mut set = ORSet::new();
    set.add("item-1", "tag-1");
    set.add("item-2", "tag-2");
    assert!(set.contains(&"item-1"));
    assert!(set.contains(&"item-2"));
    assert_eq!(set.len(), 2);
}

#[test]
fn remove_and_re_add() {
    let mut set = ORSet::new();
    set.add("item", "tag-1");
    set.remove(&"item");
    assert!(!set.contains(&"item"));
    set.add("item", "tag-2");
    assert!(set.contains(&"item"));
}

#[test]
fn merge_add_wins() {
    let mut s1 = ORSet::new();
    s1.add("shared", "tag-1");
    s1.remove(&"shared");

    let mut s2 = ORSet::new();
    s2.add("shared", "tag-2");

    let merged = s1.merge(&s2);
    assert!(merged.contains(&"shared"));
}

#[test]
fn merge_concurrent_removes() {
    let mut s1 = ORSet::new();
    s1.add("x", "t1");

    let mut s2 = ORSet::new();
    s2.add("x", "t2");

    let mut merged = s1.merge(&s2);
    assert_eq!(merged.len(), 2 - 1);
    assert!(merged.contains(&"x"));

    merged.remove(&"x");
    assert!(!merged.contains(&"x"));
}

#[test]
fn merge_idempotent_commutative() {
    let mut s1 = ORSet::new();
    s1.add("a", "t1");
    let mut s2 = ORSet::new();
    s2.add("b", "t2");
    let m12 = s1.merge(&s2);
    let m21 = s2.merge(&s1);
    assert_eq!(m12.len(), m21.len());
    assert_eq!(m12.merge(&m12).len(), m12.len());
}

#[test]
fn or_set_elements_lists_present_values() {
    let mut set = ORSet::new();
    set.add("a".to_string(), "t1");
    set.add("b".to_string(), "t2");
    set.add("c".to_string(), "t3");
    set.remove(&"b".to_string());
    assert_eq!(set.elements(), vec!["a".to_string(), "c".to_string()]);
    assert!(!set.is_empty());
}

// ---- vector clock ----

#[test]
fn increment_and_merge() {
    let mut a = VectorClock::new();
    a.increment("A");
    a.increment("A");
    let mut b = VectorClock::new();
    b.increment("B");
    b.increment("B");
    b.increment("B");

    let merged = a.merge(&b);
    assert_eq!(merged.get("A"), 2);
    assert_eq!(merged.get("B"), 3);
}

#[test]
fn happens_before() {
    let mut a = VectorClock::new();
    a.increment("X");
    let mut b = a.clone();
    b.increment("Y");
    assert!(a.happens_before(&b));
    assert!(!b.happens_before(&a));
}

#[test]
fn concurrent() {
    let mut a = VectorClock::new();
    a.increment("A");
    let mut b = VectorClock::new();
    b.increment("B");
    assert!(a.concurrent(&b));
}

#[test]
fn identical_clocks_not_happens_before() {
    let mut a = VectorClock::new();
    a.increment("A");
    let b = a.clone();
    assert!(!a.happens_before(&b));
    assert!(!b.happens_before(&a));
}

#[test]
fn merged_clock_is_after_both_sides() {
    let mut a = VectorClock::new();
    a.increment("A");
    let mut b = VectorClock::new();
    b.increment("B");
    let m = a.merge(&b);
    assert!(a.happens_before(&m));
    assert!(b.happens_before(&m));
    assert_eq!(m.get("C"), 0);
}
