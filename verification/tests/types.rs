use uwu_infra::mesh_error::EventMeshError;
use uwu_infra::type_id::TypeId;
use uwu_infra::type_table::{decode_error, TypeTable};

fn tid(d: &str, e: &str) -> TypeId {
    TypeId { domain: d.to_string(), event: e.to_string() }
}

#[test]
fn registered_types_are_known_in_order() {
    let mut t = TypeTable::new();
    t.register(tid("order", "created"), "OrderCreated");
    t.register(tid("order", "cancelled"), "OrderCancelled");
    assert_eq!(t.len(), 2);
    assert!(t.is_registered(&tid("order", "created")));
    assert!(!t.is_registered(&tid("order", "shipped")));
    let ids = t.registered_types();
    assert_eq!(ids, vec![tid("order", "created"), tid("order", "cancelled")]);
    assert_eq!(t.payload_type_of(&tid("order", "cancelled")), Some("OrderCancelled".to_string()));
    assert_eq!(t.payload_type_of(&tid("x", "y")), None);
}

#[test]
fn unknown_type_is_refused() {
    let t = TypeTable::new();
    match t.check_known(&tid("order", "created")) {
        Err(EventMeshError::UnknownType(id)) => assert_eq!(id, tid("order", "created")),
        other => panic!("unexpected {:?}", other),
    }
}

#[test]
fn decode_failure_names_the_type() {
    match decode_error(&tid("order", "created"), "missing field `id`") {
        EventMeshError::Deserialize(t, m) => {
            assert_eq!(t, "order.created");
            assert_eq!(m, "missing field `id`");
        }
        other => panic!("unexpected {:?}", other),
    }
}

#[test]
fn a_registered_id_is_seen_before_a_second_registration() {
    let mut t = TypeTable::new();
    t.register(tid("a", "b"), "T");
    assert!(t.is_registered(&tid("a", "b")));
    assert!(t.check_known(&tid("a", "b")).is_ok());
}

#[test]
fn list_registered_types() {
    let mut reg = TypeTable::new();
    reg.register(tid("order", "created"), "OrderCreated");
    reg.register(tid("order", "shipped"), "OrderShipped");
    let types = reg.registered_types();
    assert_eq!(types.len(), 2);
    assert!(reg.is_registered(&tid("order", "created")));
    assert!(!reg.is_registered(&tid("order", "nope")));
}
