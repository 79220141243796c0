use std::collections::BTreeMap;

use serde_json::Value;
use uwu_infra::doc::{
    merge_members, patch_data, uid_index, NodeId, UwuCrdtDoc, UwuCrdtError, UwuOp,
};

fn nid(s: &str) -> NodeId {
    NodeId(s.to_string())
}

fn json(s: &str) -> Value {
    serde_json::from_str(s).unwrap()
}

fn text_payload(text: &str) -> String {
    let mut m = serde_json::Map::new();
    m.insert("text".to_string(), Value::String(text.to_string()));
    Value::Object(m).to_string()
}

fn insert(id: &str, parent: Option<&str>, text: &str) -> UwuOp {
    UwuOp::Insert { id: nid(id), parent: parent.map(nid), after: None, data: text_payload(text) }
}

fn get(doc: &UwuCrdtDoc, id: &str) -> Value {
    json(&doc.get(&nid(id)).unwrap())
}

fn splice(id: &str, pos: usize, ins: &str) -> UwuOp {
    UwuOp::TextSplice { id: nid(id), slot: "body".into(), pos, del: 0, insert: ins.into() }
}

fn map_of(v: Vec<(String, String)>) -> BTreeMap<String, Value> {
    v.into_iter().map(|(k, s)| (k, json(&s))).collect()
}

#[test]
fn insert_and_read() {
    let mut doc = UwuCrdtDoc::new(1);
    doc.apply_ops(&[insert("root", None, "hello")]).unwrap();
    assert_eq!(get(&doc, "root"), json(r#"{ "text": "hello" }"#));
    assert_eq!(doc.len(), 1);
}

#[test]
fn update_merges_patch() {
    let mut doc = UwuCrdtDoc::new(1);
    doc.apply_ops(&[insert("a", None, "hi")]).unwrap();
    doc.apply_ops(&[UwuOp::Update { id: nid("a"), patch: r#"{"bold":true}"#.to_string() }])
        .unwrap();
    assert_eq!(get(&doc, "a"), json(r#"{ "text": "hi", "bold": true }"#));
}

#[test]
fn delete_removes_node() {
    let mut doc = UwuCrdtDoc::new(1);
    doc.apply_ops(&[insert("a", None, "x")]).unwrap();
    doc.apply_ops(&[UwuOp::Delete { id: nid("a") }]).unwrap();
    assert!(doc.is_empty());
    assert!(doc.get(&nid("a")).is_err());
}

#[test]
fn move_reparents_node() {
    let mut doc = UwuCrdtDoc::new(1);
    doc.apply_ops(&[
        insert("p1", None, "parent1"),
        insert("p2", None, "parent2"),
        insert("c", Some("p1"), "child"),
    ])
    .unwrap();
    doc.apply_ops(&[UwuOp::Move { id: nid("c"), new_parent: Some(nid("p2")), after: None }])
        .unwrap();
    assert_eq!(get(&doc, "c"), json(r#"{ "text": "child" }"#));
}

#[test]
fn snapshot_roundtrip_rebuilds_map() {
    let mut a = UwuCrdtDoc::new(1);
    a.apply_ops(&[insert("root", None, "r"), insert("child", Some("root"), "c")]).unwrap();
    let snap = a.export_snapshot().unwrap();

    let mut b = UwuCrdtDoc::new(2);
    b.import(&snap).unwrap();
    assert_eq!(get(&b, "root"), json(r#"{ "text": "r" }"#));
    assert_eq!(get(&b, "child"), json(r#"{ "text": "c" }"#));
    assert_eq!(b.len(), 2);
}

#[test]
fn concurrent_merge_no_conflict() {
    let mut a = UwuCrdtDoc::new(1);
    a.apply_ops(&[insert("root", None, "r")]).unwrap();
    let snap = a.export_snapshot().unwrap();

    let mut b = UwuCrdtDoc::new(2);
    b.import(&snap).unwrap();

    a.apply_ops(&[insert("a1", Some("root"), "from-a")]).unwrap();
    b.apply_ops(&[insert("b1", Some("root"), "from-b")]).unwrap();

    let a_updates = a.export_updates(None).unwrap();
    let b_updates = b.export_updates(None).unwrap();
    a.import(&b_updates).unwrap();
    b.import(&a_updates).unwrap();

    assert_eq!(a.len(), 3);
    assert_eq!(b.len(), 3);
    assert_eq!(get(&a, "b1"), json(r#"{ "text": "from-b" }"#));
    assert_eq!(get(&b, "a1"), json(r#"{ "text": "from-a" }"#));
}

#[test]
fn incremental_export_since_version() {
    let mut a = UwuCrdtDoc::new(1);
    a.apply_ops(&[insert("root", None, "r")]).unwrap();
    let v1 = a.version();

    a.apply_ops(&[insert("c", Some("root"), "c")]).unwrap();
    let delta = a.export_updates(Some(&v1)).unwrap();

    let mut b = UwuCrdtDoc::new(2);
    b.import(&a.export_updates(None).unwrap()).unwrap();
    b.import(&delta).unwrap();
    assert_eq!(b.len(), 2);
}

#[test]
fn text_splice_local_edits() {
    let mut doc = UwuCrdtDoc::new(1);
    doc.apply_ops(&[insert("cell", None, "")]).unwrap();
    doc.apply_ops(&[splice("cell", 0, "Hello world"), splice("cell", 5, ",")]).unwrap();
    assert_eq!(doc.read_text(&nid("cell"), "body").unwrap(), "Hello, world");
}

#[test]
fn text_splice_concurrent_edits_converge() {
    let mut a = UwuCrdtDoc::new(1);
    a.apply_ops(&[insert("cell", None, "")]).unwrap();
    a.apply_ops(&[splice("cell", 0, "abc")]).unwrap();
    let snap = a.export_snapshot().unwrap();

    let mut b = UwuCrdtDoc::new(2);
    b.import(&snap).unwrap();

    a.apply_ops(&[splice("cell", 0, "X")]).unwrap();
    b.apply_ops(&[splice("cell", 3, "Y")]).unwrap();

    a.import(&b.export_updates(None).unwrap()).unwrap();
    b.import(&a.export_updates(None).unwrap()).unwrap();

    let ta = a.read_text(&nid("cell"), "body").unwrap();
    let tb = b.read_text(&nid("cell"), "body").unwrap();
    assert_eq!(ta, tb);
    assert!(ta.contains('X') && ta.contains('Y') && ta.contains("abc"));
}

#[test]
fn map_set_and_delete() {
    let mut doc = UwuCrdtDoc::new(1);
    doc.apply_ops(&[insert("graph", None, "")]).unwrap();
    doc.apply_ops(&[
        UwuOp::MapSet {
            id: nid("graph"),
            slot: "edges".into(),
            key: "e1".into(),
            value: r#"{"from":"a","to":"b"}"#.into(),
        },
        UwuOp::MapSet {
            id: nid("graph"),
            slot: "edges".into(),
            key: "e2".into(),
            value: r#"{"from":"b","to":"c"}"#.into(),
        },
        UwuOp::MapDelete { id: nid("graph"), slot: "edges".into(), key: "e1".into() },
    ])
    .unwrap();
    let m = map_of(doc.read_map(&nid("graph"), "edges").unwrap());
    assert_eq!(m.len(), 1);
    assert_eq!(m["e2"], json(r#"{ "from": "b", "to": "c" }"#));
}

#[test]
fn map_concurrent_disjoint_keys_converge() {
    let mut a = UwuCrdtDoc::new(1);
    a.apply_ops(&[insert("g", None, "")]).unwrap();
    let snap = a.export_snapshot().unwrap();

    let mut b = UwuCrdtDoc::new(2);
    b.import(&snap).unwrap();

    a.apply_ops(&[UwuOp::MapSet {
        id: nid("g"),
        slot: "edges".into(),
        key: "e-a".into(),
        value: r#"{"from":"1","to":"2"}"#.into(),
    }])
    .unwrap();
    b.apply_ops(&[UwuOp::MapSet {
        id: nid("g"),
        slot: "edges".into(),
        key: "e-b".into(),
        value: r#"{"from":"3","to":"4"}"#.into(),
    }])
    .unwrap();

    a.import(&b.export_updates(None).unwrap()).unwrap();
    b.import(&a.export_updates(None).unwrap()).unwrap();

    let ma = map_of(a.read_map(&nid("g"), "edges").unwrap());
    let mb = map_of(b.read_map(&nid("g"), "edges").unwrap());
    assert_eq!(ma, mb);
    assert_eq!(ma.len(), 2);
}

#[test]
fn missing_parent_is_reported_before_anything_changes() {
    let mut doc = UwuCrdtDoc::new(1);
    let r = doc.apply(&insert("c", Some("nope"), "x"));
    match r {
        Err(UwuCrdtError::NodeNotFound(m)) => assert_eq!(m, "nope"),
        other => panic!("unexpected {:?}", other),
    }
    assert_eq!(doc.len(), 0);
}

#[test]
fn update_of_unknown_node_fails() {
    let mut doc = UwuCrdtDoc::new(1);
    let r = doc.apply(&UwuOp::Update { id: nid("x"), patch: "{}".into() });
    let e = r.unwrap_err();
    assert_eq!(e.message(), "node not found: x");
}

#[test]
fn apply_ops_stops_at_first_failure() {
    let mut doc = UwuCrdtDoc::new(1);
    let r = doc.apply_ops(&[
        insert("a", None, "1"),
        UwuOp::Delete { id: nid("zz") },
        insert("b", None, "2"),
    ]);
    assert!(r.is_err());
    assert_eq!(doc.len(), 1);
    assert!(doc.get(&nid("b")).is_err());
}

#[test]
fn update_with_non_object_patch_replaces_payload() {
    let mut doc = UwuCrdtDoc::new(1);
    doc.apply_ops(&[insert("a", None, "hi")]).unwrap();
    doc.apply_ops(&[UwuOp::Update { id: nid("a"), patch: "42".into() }]).unwrap();
    assert_eq!(get(&doc, "a"), json("42"));
}

#[test]
fn patch_data_merges_objects_patch_winning() {
    let r = patch_data(r#"{"a":1,"b":2}"#, r#"{"b":3,"c":4}"#).unwrap();
    assert_eq!(json(&r), json(r#"{"a":1,"b":3,"c":4}"#));
    assert_eq!(patch_data("", r#"{"x":1}"#).unwrap(), r#"{"x":1}"#);
    assert_eq!(patch_data("[1]", r#"{"x":1}"#).unwrap(), r#"{"x":1}"#);
    assert!(patch_data("{oops", "{}").is_err());
}

#[test]
fn merge_members_overwrites_and_appends() {
    let t = vec![("a".to_string(), "1".to_string()), ("b".to_string(), "2".to_string())];
    let p = vec![("b".to_string(), "9".to_string()), ("c".to_string(), "3".to_string())];
    let r = merge_members(t, &p);
    assert_eq!(
        r,
        vec![
            ("a".to_string(), "1".to_string()),
            ("b".to_string(), "9".to_string()),
            ("c".to_string(), "3".to_string())
        ]
    );
}

#[test]
fn uid_index_later_row_wins() {
    let t1 = loro::TreeID::new(1, 0);
    let t2 = loro::TreeID::new(1, 1);
    let rows = vec![(t1, "x".to_string()), (t2, "x".to_string())];
    let m = uid_index(&rows);
    assert_eq!(m.len(), 1);
    assert_eq!(m.get("x"), Some(&t2));
}

fn sample_replica() -> UwuCrdtDoc {
    let mut a = UwuCrdtDoc::new(7);
    a.apply_ops(&[insert("root", None, "r"), insert("leaf", Some("root"), "l")]).unwrap();
    a.apply_ops(&[
        splice("leaf", 0, "draft"),
        UwuOp::MapSet { id: nid("root"), slot: "tags".into(), key: "k".into(), value: r#"{"v":1}"#.into() },
    ])
    .unwrap();
    a
}

fn assert_same_reads(a: &mut UwuCrdtDoc, b: &mut UwuCrdtDoc) {
    for id in ["root", "leaf"] {
        assert_eq!(get(a, id), get(b, id));
        assert_eq!(a.read_text(&nid(id), "body").unwrap(), b.read_text(&nid(id), "body").unwrap());
        assert_eq!(
            map_of(a.read_map(&nid(id), "tags").unwrap()),
            map_of(b.read_map(&nid(id), "tags").unwrap())
        );
    }
    assert_eq!(a.len(), b.len());
}

#[test]
fn replica_from_snapshot_reads_the_same() {
    let mut a = sample_replica();
    let mut b = UwuCrdtDoc::new(8);
    b.import(&a.export_snapshot().unwrap()).unwrap();
    assert_same_reads(&mut a, &mut b);
    assert_eq!(b.read_text(&nid("leaf"), "body").unwrap(), "draft");
}

#[test]
fn replica_from_all_updates_reads_the_same() {
    let mut a = sample_replica();
    let mut b = UwuCrdtDoc::new(9);
    b.import(&a.export_updates(None).unwrap()).unwrap();
    assert_same_reads(&mut a, &mut b);
    assert_eq!(map_of(b.read_map(&nid("root"), "tags").unwrap())["k"], json(r#"{"v":1}"#));
}

#[test]
fn import_of_garbage_fails_and_keeps_index() {
    let mut a = sample_replica();
    let before = a.len();
    assert!(matches!(a.import(&[1, 2, 3, 4]), Err(UwuCrdtError::Loro(_))));
    assert_eq!(a.len(), before);
    assert_eq!(get(&a, "root")["text"], json(r#""r""#));
}

#[test]
fn untouched_slot_reads_empty() {
    let mut a = sample_replica();
    assert_eq!(a.read_text(&nid("root"), "notes").unwrap(), "");
    assert!(a.read_map(&nid("leaf"), "tags").unwrap().is_empty());
}

#[test]
fn splice_past_end_is_refused() {
    let mut a = sample_replica();
    let op = UwuOp::TextSplice { id: nid("leaf"), slot: "body".into(), pos: 3, del: 10, insert: "x".into() };
    assert!(matches!(a.apply_ops(&[op]), Err(UwuCrdtError::Loro(_))));
    assert_eq!(a.read_text(&nid("leaf"), "body").unwrap(), "draft");
}

#[test]
fn slot_holding_a_string_takes_no_container() {
    let mut a = sample_replica();
    // The payload lives under the metadata key "data", a string.
    assert!(matches!(a.read_text(&nid("root"), "data"), Err(UwuCrdtError::Loro(_))));
    assert!(matches!(a.read_map(&nid("root"), "uid"), Err(UwuCrdtError::Loro(_))));
    assert_eq!(a.read_text(&nid("root"), "free").unwrap(), "");
}

#[test]
fn new_document_exports_and_a_new_replica_imports() {
    let a = UwuCrdtDoc::new(3);
    let snap = a.export_snapshot().unwrap();
    let mut b = UwuCrdtDoc::new(4);
    b.import(&snap).unwrap();
    assert_eq!(b.len(), 0);
    let mut c = UwuCrdtDoc::new(5);
    c.import(&a.export_updates(None).unwrap()).unwrap();
    assert!(c.is_empty());
}

#[test]
fn move_into_own_subtree_is_refused() {
    let mut a = sample_replica();
    let op = UwuOp::Move { id: nid("root"), new_parent: Some(nid("leaf")), after: None };
    assert!(matches!(a.apply_ops(&[op]), Err(UwuCrdtError::Loro(_))));
    let ok = UwuOp::Move { id: nid("leaf"), new_parent: None, after: Some(nid("root")) };
    a.apply_ops(&[ok]).unwrap();
    assert_eq!(get(&a, "leaf")["text"], json(r#""l""#));
}
