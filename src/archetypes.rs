//! Field and object archetypes and their fingerprints.
use vstd::prelude::*;

use crate::kind::Type;

verus! {

/// The fingerprint of a field: what `fxhash::hash64` gives for the pair
/// (name, type), the name hashed as a `str`.
pub uninterp spec fn field_hash(name: Seq<char>, ty: Type) -> u64;

/// Relies on `fxhash::hash64`: a fixed-seed hash of `(name, ty)`, which
/// depends on the name and the type alone.
#[verifier::external_body]
fn hash_field(name: &str, ty: Type) -> (r: u64)
    ensures
        r == field_hash(name@, ty),
{
    fxhash::hash64(&(name, ty))
}

/// The fingerprint of a field: a deterministic hash of its name and type.
#[derive(Clone, Copy, Debug, Default, PartialEq, Eq, PartialOrd, Ord, Hash, Structural)]
pub struct FieldArchetypeId(u64);

impl View for FieldArchetypeId {
    type V = u64;

    closed spec fn view(&self) -> u64 {
        self.0
    }
}

impl FieldArchetypeId {
    /// The id of the field `(name, ty)`.
    pub fn new(name: &str, ty: Type) -> (r: Self)
        ensures
            r@ == field_hash(name@, ty),
    {
        FieldArchetypeId(hash_field(name, ty))
    }

    /// The fingerprint as a bare integer.
    pub fn raw(&self) -> (r: u64)
        ensures
            r == self@,
    {
        self.0
    }
}

/// The definition behind a field id: the field's name and type.
#[derive(Debug, Hash)]
pub struct FieldArchetype {
    pub name: String,
    pub ty: Type,
}

impl View for FieldArchetype {
    type V = (Seq<char>, Type);

    open spec fn view(&self) -> (Seq<char>, Type) {
        (self.name@, self.ty)
    }
}

impl FieldArchetype {
    pub fn new(name: String, ty: Type) -> (r: Self)
        ensures
            r.name == name,
            r.ty == ty,
    {
        FieldArchetype { name, ty }
    }
}

/// The fingerprint of an object shape: what `fxhash::hash64` gives for the
/// ordered list of its field ids, hashed as a slice of `FieldArchetypeId`.
pub uninterp spec fn object_hash(ids: Seq<u64>) -> u64;

/// The bare fingerprints of a list of field ids, in order.
pub open spec fn raw_ids(ids: Seq<FieldArchetypeId>) -> Seq<u64> {
    ids.map_values(|i: FieldArchetypeId| i@)
}

/// Relies on `fxhash::hash64`: a fixed-seed hash of the slice, which depends
/// on the fingerprints and their order alone.
#[verifier::external_body]
fn hash_field_ids(ids: &[FieldArchetypeId]) -> (r: u64)
    ensures
        r == object_hash(raw_ids(ids@)),
{
    fxhash::hash64(ids)
}

/// The fingerprint of an object shape: a deterministic hash of the ordered
/// list of its field ids.
#[derive(Clone, Copy, Debug, Default, PartialEq, Eq, PartialOrd, Ord, Hash, Structural)]
pub struct ObjectArchetypeId(u64);

impl View for ObjectArchetypeId {
    type V = u64;

    closed spec fn view(&self) -> u64 {
        self.0
    }
}

impl ObjectArchetypeId {
    /// The id of the shape made of `field_ids`, in that order.
    pub fn new(field_ids: &[FieldArchetypeId]) -> (r: Self)
        ensures
            r@ == object_hash(raw_ids(field_ids@)),
    {
        ObjectArchetypeId(hash_field_ids(field_ids))
    }

    /// The fingerprint as a bare integer.
    pub fn raw(&self) -> (r: u64)
        ensures
            r == self@,
    {
        self.0
    }
}

/// The definition behind an object id: its field ids in canonical order.
#[derive(Debug, Hash)]
pub struct ObjectArchetype {
    pub field_ids: Vec<FieldArchetypeId>,
}

impl View for ObjectArchetype {
    type V = Seq<u64>;

    open spec fn view(&self) -> Seq<u64> {
        raw_ids(self.field_ids@)
    }
}

impl ObjectArchetype {
    pub fn new(field_ids: Vec<FieldArchetypeId>) -> (r: Self)
        ensures
            r.field_ids@ == field_ids@,
    {
        ObjectArchetype { field_ids }
    }
}

/// Equal names and types give equal field ids, at every call.
pub proof fn lemma_field_id_deterministic(n1: Seq<char>, t1: Type, n2: Seq<char>, t2: Type)
    requires
        n1 == n2,
        t1 == t2,
    ensures
        field_hash(n1, t1) == field_hash(n2, t2),
{
}

} // verus!
