use std::hash::{Hash, Hasher};

use archetypes::{FieldArchetype, FieldArchetypeId, ObjectArchetype, ObjectArchetypeId, Type};
use fxhash::FxHasher64;

#[test]
fn field_archetype_id_equals_archetype_hash() {
    let arch_id = FieldArchetypeId::new("foo", Type::Int32);
    let arch = FieldArchetype::new("foo".into(), Type::Int32);

    let mut hasher = FxHasher64::default();
    arch.hash(&mut hasher);
    let arch_hash = hasher.finish();

    assert_eq!(arch_id.raw(), arch_hash);
}

#[test]
fn object_archetype_id_equals_archetype_hash() {
    let field_ids = vec![FieldArchetypeId::new("foo", Type::Int32)];
    let arch_id = ObjectArchetypeId::new(&field_ids);
    let arch = ObjectArchetype::new(field_ids);

    let mut hasher = FxHasher64::default();
    arch.hash(&mut hasher);
    let arch_hash = hasher.finish();

    assert_eq!(arch_id.raw(), arch_hash);
}

#[test]
fn field_id_is_deterministic() {
    let a = FieldArchetypeId::new("name", Type::String);
    let b = FieldArchetypeId::new("name", Type::String);
    assert_eq!(a, b);
    assert_eq!(a.raw(), b.raw());
    assert_eq!(a.raw(), fxhash::hash64(&("name", Type::String)));
}

#[test]
fn field_id_depends_on_name_and_type() {
    let base = FieldArchetypeId::new("foo", Type::Bool);
    assert_ne!(base, FieldArchetypeId::new("bar", Type::Bool));
    assert_ne!(base, FieldArchetypeId::new("foo", Type::Int8));
    assert_ne!(base, FieldArchetypeId::new("fo", Type::Bool));
    assert_ne!(
        FieldArchetypeId::new("id", Type::Uuid),
        FieldArchetypeId::new("id", Type::Uint64)
    );
}

#[test]
fn object_id_depends_on_field_order() {
    let a = FieldArchetypeId::new("a", Type::Bool);
    let b = FieldArchetypeId::new("b", Type::Bool);
    let ab = ObjectArchetypeId::new(&[a, b]);
    let ba = ObjectArchetypeId::new(&[b, a]);
    assert_eq!(ab, ObjectArchetypeId::new(&[a, b]));
    assert_ne!(ab, ba);
    assert_ne!(ab, ObjectArchetypeId::new(&[a]));
    assert_eq!(ab.raw(), fxhash::hash64(&[a, b][..]));
}

#[test]
fn ids_order_by_raw_value() {
    let a = FieldArchetypeId::new("a", Type::Bool);
    let b = FieldArchetypeId::new("b", Type::Bool);
    assert_eq!(a < b, a.raw() < b.raw());
    assert_eq!(FieldArchetypeId::default().raw(), 0);
}
