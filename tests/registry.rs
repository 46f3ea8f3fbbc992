use std::time::Duration;

use archetypes::{
    DynMap, FieldArchetypeId, Object, ObjectArchetypeId, Registry, Timestamp, Type, Value,
};
use uuid::Uuid;

fn person(id: Value) -> Object {
    Object::from_pairs(vec![
        ("id".into(), id),
        ("name".into(), Value::String("Nicolas".into())),
        ("age".into(), Value::Uint8(38)),
    ])
}

#[test]
fn assign_the_same_archetype_to_similar_fields() {
    let mut registry = Registry::default();

    let arch_id1 = registry.assign_field("foo", &Value::Bool(true));
    let arch_id2 = registry.assign_field("foo", &Value::Bool(false));

    assert_eq!(arch_id1, arch_id2);
}

#[test]
fn assign_different_archetypes_for_fields_with_different_names() {
    let mut registry = Registry::default();

    let arch_id1 = registry.assign_field("foo", &Value::Bool(true));
    let arch_id2 = registry.assign_field("bar", &Value::Bool(false));

    assert_ne!(arch_id1, arch_id2);
}

#[test]
fn assign_different_archetypes_for_fields_with_different_value_types() {
    let mut registry = Registry::default();

    let arch_id1 = registry.assign_field("foo", &Value::Bool(true));
    let arch_id2 = registry.assign_field("foo", &Value::Int8(42));

    assert_ne!(arch_id1, arch_id2);
}

#[test]
fn assign_the_same_archetype_to_similar_shaped_objects() {
    let mut registry = Registry::default();

    let o1 = Object::from_pairs(vec![
        ("id".into(), Value::Uuid(Uuid::new_v4())),
        ("name".into(), Value::String("Nicolas".into())),
        ("age".into(), Value::Uint8(38)),
    ]);
    let arch_id1 = registry.assign_object(&o1);

    let o2 = Object::from_pairs(vec![
        ("name".into(), Value::String("Nicolas".into())),
        ("age".into(), Value::Uint8(38)),
        ("id".into(), Value::Uuid(Uuid::new_v4())),
    ]);
    let arch_id2 = registry.assign_object(&o2);

    assert_eq!(arch_id1, arch_id2);
}

#[test]
fn assign_different_archetypes_for_objects_with_different_sets_of_fields() {
    let mut registry = Registry::default();

    let o1 = Object::from_pairs(vec![
        ("id".into(), Value::Uuid(Uuid::new_v4())),
        ("name".into(), Value::String("Nicolas".into())),
        ("age".into(), Value::Uint8(38)),
    ]);
    let arch_id1 = registry.assign_object(&o1);

    let o2 = Object::from_pairs(vec![
        ("name".into(), Value::String("Nicolas".into())),
        ("id".into(), Value::Uuid(Uuid::new_v4())),
    ]);
    let arch_id2 = registry.assign_object(&o2);

    assert_ne!(arch_id1, arch_id2);
}

#[test]
fn assign_different_archetypes_for_objects_with_fields_with_different_types() {
    let mut registry = Registry::default();

    let o1 = Object::from_pairs(vec![
        ("id".into(), Value::Uuid(Uuid::new_v4())),
        ("name".into(), Value::String("Nicolas".into())),
        ("age".into(), Value::Uint8(38)),
    ]);
    let arch_id1 = registry.assign_object(&o1);

    let o2 = Object::from_pairs(vec![
        ("id".into(), Value::Uint64(1337)),
        ("name".into(), Value::String("Nicolas".into())),
        ("age".into(), Value::Uint8(38)),
    ]);
    let arch_id2 = registry.assign_object(&o2);

    assert_ne!(arch_id1, arch_id2);
}

#[test]
fn get_an_existing_field_archetype() {
    let mut registry = Registry::default();

    let arch_id = registry.assign_field("foo", &Value::Bool(true));
    let arch = registry.get_field_archetype(arch_id);

    assert!(arch.is_some());
}

#[test]
fn get_an_existing_object_archetype() {
    let mut registry = Registry::default();

    let o = Object::from_pairs(vec![("id".into(), Value::Uint64(1337))]);
    let arch_id = registry.assign_object(&o);
    let arch = registry.get_object_archetype(arch_id);

    assert!(arch.is_some());
}

#[test]
fn second_assignment_of_a_field_adds_nothing() {
    let mut registry = Registry::new();
    assert_eq!(registry.field_count(), 0);
    let a = registry.assign_field("foo", &Value::Bool(true));
    assert_eq!(registry.field_count(), 1);
    let b = registry.assign_field("foo", &Value::Bool(false));
    assert_eq!(a, b);
    assert_eq!(registry.field_count(), 1);
    let c = registry.assign_field("bar", &Value::Bool(false));
    assert_ne!(a, c);
    assert_eq!(registry.field_count(), 2);
}

#[test]
fn field_round_trip() {
    let mut registry = Registry::default();
    let id = registry.assign_field("answer", &Value::Int64(42));
    assert_eq!(id, FieldArchetypeId::new("answer", Type::Int64));
    let arch = registry.get_field_archetype(id).unwrap();
    assert_eq!(arch.name, "answer");
    assert_eq!(arch.ty, Type::Int64);
}

#[test]
fn lookup_of_an_unassigned_id_is_absent() {
    let mut registry = Registry::default();
    let unknown = FieldArchetypeId::new("never", Type::Bool);
    assert!(registry.get_field_archetype(unknown).is_none());
    let _ = registry.assign_field("other", &Value::Bool(true));
    assert!(registry.get_field_archetype(unknown).is_none());
    let shape = ObjectArchetypeId::new(&[unknown]);
    assert!(registry.get_object_archetype(shape).is_none());
}

#[test]
fn object_round_trip_lists_field_ids_in_name_order() {
    let mut registry = Registry::default();
    let o = person(Value::Uuid(Uuid::nil()));
    let id = registry.assign_object(&o);
    let expected = vec![
        FieldArchetypeId::new("age", Type::Uint8),
        FieldArchetypeId::new("id", Type::Uuid),
        FieldArchetypeId::new("name", Type::String),
    ];
    assert_eq!(id, ObjectArchetypeId::new(&expected));
    let arch = registry.get_object_archetype(id).unwrap();
    assert_eq!(arch.field_ids, expected);
    assert_eq!(registry.field_count(), 3);
    assert_eq!(registry.object_count(), 1);
    for field in &expected {
        assert!(registry.get_field_archetype(*field).is_some());
    }
}

#[test]
fn records_differing_only_in_uuid_payload_share_a_shape() {
    let mut registry = Registry::default();
    let x = Uuid::from_u128(1);
    let y = Uuid::from_u128(2);
    let o1 = person(Value::Uuid(x));
    let o2 = Object::from_pairs(vec![
        ("name".into(), Value::String("Nicolas".into())),
        ("age".into(), Value::Uint8(38)),
        ("id".into(), Value::Uuid(y)),
    ]);
    let a = registry.assign_object(&o1);
    let b = registry.assign_object(&o2);
    assert_eq!(a, b);
    assert_eq!(registry.object_count(), 1);
    assert_eq!(registry.field_count(), 3);
}

#[test]
fn retyped_or_missing_field_changes_the_shape() {
    let mut registry = Registry::default();
    let full = registry.assign_object(&person(Value::Uuid(Uuid::nil())));
    let retyped = registry.assign_object(&person(Value::Uint64(1337)));
    let missing = registry.assign_object(&Object::from_pairs(vec![
        ("id".into(), Value::Uuid(Uuid::nil())),
        ("name".into(), Value::String("Nicolas".into())),
    ]));
    assert_ne!(full, retyped);
    assert_ne!(full, missing);
    assert_ne!(retyped, missing);
    assert_eq!(registry.object_count(), 3);
    assert_eq!(registry.field_count(), 4);
}

#[test]
fn empty_record_has_a_shape() {
    let mut registry = Registry::default();
    let id = registry.assign_object(&Object::new());
    assert_eq!(id, ObjectArchetypeId::new(&[]));
    assert!(registry.get_object_archetype(id).unwrap().field_ids.is_empty());
    assert_eq!(registry.field_count(), 0);
}

#[test]
fn every_value_projects_to_its_type() {
    let cases = vec![
        (Value::Array(vec![Value::Bool(true)]), Type::Array),
        (Value::Bool(false), Type::Bool),
        (Value::DateTime(Timestamp { seconds: 0, nanos: 0 }), Type::DateTime),
        (Value::Duration(Duration::from_secs(3)), Type::Duration),
        (Value::Int8(-1), Type::Int8),
        (Value::Int16(-2), Type::Int16),
        (Value::Int32(-3), Type::Int32),
        (Value::Int64(-4), Type::Int64),
        (Value::Float32(1.5f32.to_bits()), Type::Float32),
        (Value::Float64(2.5f64.to_bits()), Type::Float64),
        (Value::DynMap(DynMap::new()), Type::DynMap),
        (Value::Object(Object::new()), Type::Object),
        (Value::String("s".into()), Type::String),
        (Value::Uint8(1), Type::Uint8),
        (Value::Uint16(2), Type::Uint16),
        (Value::Uint32(3), Type::Uint32),
        (Value::Uint64(4), Type::Uint64),
        (Value::Uint128(5), Type::Uint128),
        (Value::Uuid(Uuid::nil()), Type::Uuid),
    ];
    for (value, ty) in &cases {
        assert_eq!(value.ty(), *ty);
    }
}

#[test]
fn nested_values_take_their_outer_type() {
    let mut registry = Registry::default();
    let mut bag = DynMap::new();
    assert!(bag.insert("k".into(), Value::Int8(1)));
    assert!(!bag.insert("k".into(), Value::Int8(2)));
    let inner = Object::from_pairs(vec![("x".into(), Value::Bool(true))]);
    let a = registry.assign_field("payload", &Value::Object(inner));
    let b = registry.assign_field("payload", &Value::DynMap(bag));
    assert_eq!(a, FieldArchetypeId::new("payload", Type::Object));
    assert_eq!(b, FieldArchetypeId::new("payload", Type::DynMap));
}
