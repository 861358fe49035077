use unreal_api::store::{Entity, Store};
use unreal_api::value::Value;

const RES_A: u128 = 0x10;
const RES_B: u128 = 0x11;
const COMP_T: u128 = 0x20;

#[test]
fn last_insert_resource_wins() {
    let mut store = Store::new();
    store.insert_resource(RES_A, Value::Num(1));
    store.insert_resource(RES_A, Value::Num(2));
    store.insert_resource(RES_A, Value::Num(3));
    assert_eq!(store.get_resource(RES_A), Some(&Value::Num(3)));
}

#[test]
fn init_resource_is_noop_when_present() {
    let mut store = Store::new();
    store.insert_resource(RES_A, Value::Num(7));
    store.init_resource(RES_A, Value::Num(0));
    assert_eq!(store.get_resource(RES_A), Some(&Value::Num(7)));
}

#[test]
fn init_resource_constructs_when_absent() {
    let mut store = Store::new();
    store.init_resource(RES_B, Value::Flag(true));
    assert_eq!(store.get_resource(RES_B), Some(&Value::Flag(true)));
    store.init_resource(RES_B, Value::Flag(false));
    assert_eq!(store.get_resource(RES_B), Some(&Value::Flag(true)));
}

#[test]
fn insert_then_init_keeps_inserted_value() {
    let mut store = Store::new();
    store.insert_resource(RES_A, Value::Num(1));
    store.init_resource(RES_A, Value::Num(100));
    store.insert_resource(RES_A, Value::Num(2));
    store.init_resource(RES_A, Value::Num(100));
    assert_eq!(store.get_resource(RES_A), Some(&Value::Num(2)));
}

#[test]
fn resource_scope_reinserts_identical_value() {
    let mut store = Store::new();
    let keeper = store.spawn();
    let other = store.spawn();
    assert!(store.insert_component(keeper, COMP_T, Value::Num(1)));
    store.insert_resource(RES_A, Value::Text(String::from("kept")));

    let taken = store.take_resource(RES_A).expect("resource was inserted");
    assert_eq!(store.get_resource(RES_A), None);
    assert!(store.insert_component(other, COMP_T, Value::Num(99)));
    store.insert_resource(RES_A, taken);

    assert_eq!(
        store.get_resource(RES_A),
        Some(&Value::Text(String::from("kept")))
    );
    assert_eq!(store.get_component(keeper, COMP_T), Some(&Value::Num(1)));
    assert_eq!(store.get_component(other, COMP_T), Some(&Value::Num(99)));
}

#[test]
fn spawned_entities_are_distinct() {
    let mut store = Store::new();
    let a = store.spawn();
    let b = store.spawn();
    let c = store.spawn();
    assert_ne!(a, b);
    assert_ne!(b, c);
    assert_ne!(a, c);
}

#[test]
fn component_attach_read_remove() {
    let mut store = Store::new();
    let e = store.spawn();
    assert_eq!(store.get_component(e, COMP_T), None);
    assert!(store.insert_component(e, COMP_T, Value::Num(5)));
    assert_eq!(store.get_component(e, COMP_T), Some(&Value::Num(5)));
    assert!(store.insert_component(e, COMP_T, Value::Num(6)));
    assert_eq!(store.get_component(e, COMP_T), Some(&Value::Num(6)));
    assert_eq!(store.remove_component(e, COMP_T), Some(Value::Num(6)));
    assert_eq!(store.get_component(e, COMP_T), None);
}

#[test]
fn component_on_dead_entity_is_rejected() {
    let mut store = Store::new();
    let e = store.spawn();
    assert!(store.despawn(e));
    assert!(!store.insert_component(e, COMP_T, Value::Unit));
    assert_eq!(store.get_component(e, COMP_T), None);
    assert!(!store.despawn(e));
}

#[test]
fn despawn_drops_components() {
    let mut store = Store::new();
    let e = store.spawn();
    let id = Entity { id: e.id };
    assert!(store.insert_component(e, COMP_T, Value::Num(4)));
    assert!(store.despawn(e));
    assert_eq!(store.get_component(id, COMP_T), None);
}
