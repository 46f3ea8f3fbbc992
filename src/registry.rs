//! The registry that deduplicates field and object archetypes.
use std::sync::Arc;

use vstd::prelude::*;

use scc::TreeIndex;

use crate::archetypes::{
    field_hash, object_hash, raw_ids, FieldArchetype, FieldArchetypeId, ObjectArchetype,
    ObjectArchetypeId,
};
use crate::kind::Type;
use crate::record::{lemma_shape_sorted, lemma_sorted_same_elements, Object};
use crate::value::Value;

verus! {

#[verifier::external_type_specification]
#[verifier::external_body]
#[verifier::reject_recursive_types(K)]
#[verifier::reject_recursive_types(V)]
pub struct ExTreeIndex<K, V>(scc::TreeIndex<K, V>);

/// What the field index holds: fingerprint to (name, type).
pub uninterp spec fn field_entries(
    t: TreeIndex<FieldArchetypeId, Arc<FieldArchetype>>,
) -> Map<u64, (Seq<char>, Type)>;

/// What the object index holds: fingerprint to the ordered field fingerprints.
pub uninterp spec fn object_entries(
    t: TreeIndex<ObjectArchetypeId, Arc<ObjectArchetype>>,
) -> Map<u64, Seq<u64>>;

/// Relies on `scc::TreeIndex::new`: the index starts empty.
#[verifier::external_body]
fn new_field_index() -> (r: TreeIndex<FieldArchetypeId, Arc<FieldArchetype>>)
    ensures
        field_entries(r) =~= Map::empty(),
{
    TreeIndex::new()
}

/// Relies on `scc::TreeIndex::peek_with`: the entry under the key, if any.
#[verifier::external_body]
fn field_index_get(
    t: &TreeIndex<FieldArchetypeId, Arc<FieldArchetype>>,
    id: FieldArchetypeId,
) -> (r: Option<Arc<FieldArchetype>>)
    ensures
        r is Some <==> field_entries(*t).contains_key(id@),
        r is Some ==> r->0@ == field_entries(*t)[id@],
{
    t.peek_with(&id, |_, v| Arc::clone(v))
}

/// Relies on `scc::TreeIndex::insert`: it inserts the pair when the key is
/// absent, and otherwise hands the pair back and leaves the index as it was.
#[verifier::external_body]
fn field_index_insert(
    t: &mut TreeIndex<FieldArchetypeId, Arc<FieldArchetype>>,
    id: FieldArchetypeId,
    def: Arc<FieldArchetype>,
) -> (r: bool)
    ensures
        r == !field_entries(*old(t)).contains_key(id@),
        field_entries(*final(t)) == (if r {
            field_entries(*old(t)).insert(id@, def@)
        } else {
            field_entries(*old(t))
        }),
{
    t.insert(id, def).is_ok()
}

/// Relies on `scc::TreeIndex::len`: the number of entries.
#[verifier::external_body]
fn field_index_len(t: &TreeIndex<FieldArchetypeId, Arc<FieldArchetype>>) -> (r: usize)
    ensures
        r == field_entries(*t).len(),
{
    t.len()
}

/// Relies on `scc::TreeIndex::new`: the index starts empty.
#[verifier::external_body]
fn new_object_index() -> (r: TreeIndex<ObjectArchetypeId, Arc<ObjectArchetype>>)
    ensures
        object_entries(r) =~= Map::empty(),
{
    TreeIndex::new()
}

/// Relies on `scc::TreeIndex::peek_with`: the entry under the key, if any.
#[verifier::external_body]
fn object_index_get(
    t: &TreeIndex<ObjectArchetypeId, Arc<ObjectArchetype>>,
    id: ObjectArchetypeId,
) -> (r: Option<Arc<ObjectArchetype>>)
    ensures
        r is Some <==> object_entries(*t).contains_key(id@),
        r is Some ==> r->0@ == object_entries(*t)[id@],
{
    t.peek_with(&id, |_, v| Arc::clone(v))
}

/// Relies on `scc::TreeIndex::insert`: it inserts the pair when the key is
/// absent, and otherwise hands the pair back and leaves the index as it was.
#[verifier::external_body]
fn object_index_insert(
    t: &mut TreeIndex<ObjectArchetypeId, Arc<ObjectArchetype>>,
    id: ObjectArchetypeId,
    def: Arc<ObjectArchetype>,
) -> (r: bool)
    ensures
        r == !object_entries(*old(t)).contains_key(id@),
        object_entries(*final(t)) == (if r {
            object_entries(*old(t)).insert(id@, def@)
        } else {
            object_entries(*old(t))
        }),
{
    t.insert(id, def).is_ok()
}

/// Relies on `scc::TreeIndex::len`: the number of entries.
#[verifier::external_body]
fn object_index_len(t: &TreeIndex<ObjectArchetypeId, Arc<ObjectArchetype>>) -> (r: usize)
    ensures
        r == object_entries(*t).len(),
{
    t.len()
}

/// The abstract content of a registry.
pub ghost struct RegistryView {
    pub fields: Map<u64, (Seq<char>, Type)>,
    pub objects: Map<u64, Seq<u64>>,
}

/// The fingerprints of the fields of a shape, in order.
pub open spec fn field_ids_of(shape: Seq<(Seq<char>, Type)>) -> Seq<u64> {
    shape.map_values(|d: (Seq<char>, Type)| field_hash(d.0, d.1))
}

/// The fingerprint of a shape.
pub open spec fn object_id_of(shape: Seq<(Seq<char>, Type)>) -> u64 {
    object_hash(field_ids_of(shape))
}

/// The field store after registering `d`: unchanged if its id is known.
pub open spec fn add_field(
    m: Map<u64, (Seq<char>, Type)>,
    d: (Seq<char>, Type),
) -> Map<u64, (Seq<char>, Type)> {
    let k = field_hash(d.0, d.1);
    if m.contains_key(k) {
        m
    } else {
        m.insert(k, d)
    }
}

/// The field store after registering each of `ds` in turn.
pub open spec fn add_fields(
    m: Map<u64, (Seq<char>, Type)>,
    ds: Seq<(Seq<char>, Type)>,
) -> Map<u64, (Seq<char>, Type)>
    decreases ds.len(),
{
    if ds.len() == 0 {
        m
    } else {
        add_field(add_fields(m, ds.drop_last()), ds.last())
    }
}

/// The object store after registering the shape with field ids `ids`.
pub open spec fn add_object(m: Map<u64, Seq<u64>>, ids: Seq<u64>) -> Map<u64, Seq<u64>> {
    let k = object_hash(ids);
    if m.contains_key(k) {
        m
    } else {
        m.insert(k, ids)
    }
}

/// Each stored id is the hash of its definition, and each object's fields
/// are stored.
pub open spec fn registry_wf(v: RegistryView) -> bool {
    &&& v.fields.dom().finite()
    &&& v.objects.dom().finite()
    &&& forall|k: u64| #[trigger]
        v.fields.contains_key(k) ==> k == field_hash(v.fields[k].0, v.fields[k].1)
    &&& forall|k: u64| #[trigger]
        v.objects.contains_key(k) ==> k == object_hash(v.objects[k])
    &&& forall|k: u64, i: int|
        #![trigger v.objects[k][i]]
        v.objects.contains_key(k) && 0 <= i < v.objects[k].len() ==> v.fields.contains_key(
            v.objects[k][i],
        )
}

/// The store of field and object archetypes.
#[derive(Debug)]
pub struct Registry {
    fields: TreeIndex<FieldArchetypeId, Arc<FieldArchetype>>,
    objects: TreeIndex<ObjectArchetypeId, Arc<ObjectArchetype>>,
}

impl View for Registry {
    type V = RegistryView;

    closed spec fn view(&self) -> RegistryView {
        RegistryView { fields: field_entries(self.fields), objects: object_entries(self.objects) }
    }
}

impl Default for Registry {
    fn default() -> (r: Self)
        ensures
            r.wf(),
            r@.fields =~= Map::empty(),
            r@.objects =~= Map::empty(),
    {
        Registry::new()
    }
}

impl Registry {
    /// Every stored id is the fingerprint of its definition, and every
    /// object's fields are stored.
    pub open spec fn wf(&self) -> bool {
        registry_wf(self@)
    }

    /// An empty registry.
    pub fn new() -> (r: Self)
        ensures
            r.wf(),
            r@.fields =~= Map::empty(),
            r@.objects =~= Map::empty(),
    {
        Registry { fields: new_field_index(), objects: new_object_index() }
    }

    /// Registers the field `(name, type of value)` unless its id is known,
    /// and returns the id.
    pub fn assign_field(&mut self, name: &str, value: &Value) -> (r: FieldArchetypeId)
        requires
            old(self).wf(),
        ensures
            final(self).wf(),
            r@ == field_hash(name@, value.type_of()),
            final(self)@.fields == add_field(old(self)@.fields, (name@, value.type_of())),
            final(self)@.objects == old(self)@.objects,
    {
        let ty = value.ty();
        let id = FieldArchetypeId::new(name, ty);
        if field_index_get(&self.fields, id).is_none() {
            let def = Arc::new(FieldArchetype::new(name.to_owned(), ty));
            let _ = field_index_insert(&mut self.fields, id, def);
        }
        proof {
            let v = self@;
            assert forall|k: u64, i: int|
                v.objects.contains_key(k) && 0 <= i < v.objects[k].len() implies v.fields.contains_key(
                #[trigger] v.objects[k][i],
            ) by {
                assert(old(self)@.fields.contains_key(old(self)@.objects[k][i]));
            }
        }
        id
    }

    /// Registers every field of the record in canonical order, then its
    /// shape unless that id is known, and returns the shape's id.
    pub fn assign_object(&mut self, object: &Object) -> (r: ObjectArchetypeId)
        requires
            old(self).wf(),
        ensures
            final(self).wf(),
            r@ == object_id_of(object.shape()),
            final(self)@.fields == add_fields(old(self)@.fields, object.shape()),
            final(self)@.objects == add_object(old(self)@.objects, field_ids_of(object.shape())),
    {
        let ghost shape = object.shape();
        let n = object.len();
        let mut field_ids: Vec<FieldArchetypeId> = Vec::new();
        let mut i: usize = 0;
        while i < n
            invariant
                self.wf(),
                n == object@.len(),
                shape == object.shape(),
                i <= n,
                raw_ids(field_ids@) == field_ids_of(shape.take(i as int)),
                self@.fields == add_fields(old(self)@.fields, shape.take(i as int)),
                self@.objects == old(self)@.objects,
                forall|j: int|
                    0 <= j < field_ids@.len() ==> self@.fields.contains_key(
                        #[trigger] raw_ids(field_ids@)[j],
                    ),
            decreases n - i,
        {
            let ghost before = self@.fields;
            let ghost old_ids = field_ids@;
            let name = object.name_at(i).as_str();
            let value = object.value_at(i);
            let id = self.assign_field(name, value);
            field_ids.push(id);
            proof {
                assert(shape.take(i + 1).drop_last() =~= shape.take(i as int));
                assert(shape[i as int] == (name@, value.type_of()));
                assert(raw_ids(field_ids@) =~= raw_ids(old_ids).push(id@));
                assert(field_ids_of(shape.take(i + 1)) =~= field_ids_of(shape.take(i as int)).push(
                    id@,
                ));
                assert forall|j: int|
                    0 <= j < field_ids@.len() implies self@.fields.contains_key(
                    #[trigger] raw_ids(field_ids@)[j],
                ) by {
                    if j < i {
                        assert(raw_ids(field_ids@)[j] == raw_ids(old_ids)[j]);
                        assert(before.contains_key(raw_ids(old_ids)[j]));
                    }
                }
            }
            i = i + 1;
        }
        proof {
            assert(shape.take(n as int) =~= shape);
        }
        let object_id = ObjectArchetypeId::new(field_ids.as_slice());
        if object_index_get(&self.objects, object_id).is_none() {
            let def = Arc::new(ObjectArchetype::new(field_ids));
            let _ = object_index_insert(&mut self.objects, object_id, def);
        }
        object_id
    }

    /// The definition registered under `id`, if any.
    pub fn get_field_archetype(&self, id: FieldArchetypeId) -> (r: Option<Arc<FieldArchetype>>)
        ensures
            r is Some <==> self@.fields.contains_key(id@),
            r is Some ==> r->0@ == self@.fields[id@],
    {
        field_index_get(&self.fields, id)
    }

    /// The definition registered under `id`, if any.
    pub fn get_object_archetype(&self, id: ObjectArchetypeId) -> (r: Option<Arc<ObjectArchetype>>)
        ensures
            r is Some <==> self@.objects.contains_key(id@),
            r is Some ==> r->0@ == self@.objects[id@],
    {
        object_index_get(&self.objects, id)
    }

    /// The number of registered field archetypes.
    pub fn field_count(&self) -> (r: usize)
        ensures
            r == self@.fields.len(),
    {
        field_index_len(&self.fields)
    }

    /// The number of registered object archetypes.
    pub fn object_count(&self) -> (r: usize)
        ensures
            r == self@.objects.len(),
    {
        object_index_len(&self.objects)
    }
}

} // verus!

verus! {

/// Assigning the field `(n, v1)` and then `(n, v2)`, where `v1` and `v2` are
/// of one type, gives one id, and the second call leaves the field store,
/// and so its size, as the first left it.
pub proof fn lemma_assign_field_idempotent(reg: Registry, n: Seq<char>, v1: Value, v2: Value)
    requires
        v1.type_of() == v2.type_of(),
    ensures
        field_hash(n, v1.type_of()) == field_hash(n, v2.type_of()),
        add_field(add_field(reg@.fields, (n, v1.type_of())), (n, v2.type_of())) == add_field(
            reg@.fields,
            (n, v1.type_of()),
        ),
        add_field(add_field(reg@.fields, (n, v1.type_of())), (n, v2.type_of())).len() == add_field(
            reg@.fields,
            (n, v1.type_of()),
        ).len(),
{
}

/// Two well-formed records with the same set of (name, type) pairs have the
/// same shape, hence the same field ids and the same object id, whatever
/// order their fields were supplied in and whatever values they hold.
pub proof fn lemma_object_id_order_independent(o1: Object, o2: Object)
    requires
        o1.wf(),
        o2.wf(),
        o1.shape().to_set() == o2.shape().to_set(),
    ensures
        o1.shape() == o2.shape(),
        field_ids_of(o1.shape()) == field_ids_of(o2.shape()),
        object_id_of(o1.shape()) == object_id_of(o2.shape()),
{
    lemma_shape_sorted(o1);
    lemma_shape_sorted(o2);
    lemma_sorted_same_elements(o1.shape(), o2.shape());
}

/// After `assign_field(n, v)` the store holds `(n, type of v)` under the
/// returned id, and an id that was absent and is not the returned one stays
/// absent. The first part needs that no other definition already stands
/// under that id (a fingerprint collision).
pub proof fn lemma_field_round_trip(reg: Registry, n: Seq<char>, v: Value, other: u64)
    requires
        reg.wf(),
        reg@.fields.contains_key(field_hash(n, v.type_of())) ==> reg@.fields[field_hash(
            n,
            v.type_of(),
        )] == (n, v.type_of()),
    ensures
        add_field(reg@.fields, (n, v.type_of())).contains_key(field_hash(n, v.type_of())),
        add_field(reg@.fields, (n, v.type_of()))[field_hash(n, v.type_of())] == (n, v.type_of()),
        !reg@.fields.contains_key(other) && other != field_hash(n, v.type_of()) ==> !add_field(
            reg@.fields,
            (n, v.type_of()),
        ).contains_key(other),
{
}

} // verus!
