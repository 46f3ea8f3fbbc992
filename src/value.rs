//! Runtime values and their projection to a [`Type`].
use vstd::prelude::*;

use crate::kind::Type;
use crate::record::Object;

verus! {

#[verifier::external_type_specification]
#[verifier::external_body]
pub struct ExUuid(uuid::Uuid);

/// A UTC instant, as `chrono::DateTime<Utc>` gives it: whole seconds since
/// the Unix epoch and the nanoseconds past that second.
#[derive(Clone, Copy, Debug, PartialEq, Eq, Hash, Structural)]
pub struct Timestamp {
    pub seconds: i64,
    pub nanos: u32,
}

/// A free-form bag of values keyed by string. Its inner shape is opaque: it
/// is never registered as an archetype.
#[verifier::external_body]
#[derive(Debug)]
pub struct DynMap {
    entries: scc::HashMap<String, Value>,
}

/// The keys that a bag holds.
pub uninterp spec fn dyn_map_keys(m: DynMap) -> Set<Seq<char>>;

/// Relies on `scc::HashMap::new`: the map starts empty.
#[verifier::external_body]
fn empty_dyn_map() -> (r: DynMap)
    ensures
        dyn_map_keys(r) == Set::<Seq<char>>::empty(),
{
    DynMap { entries: scc::HashMap::new() }
}

/// Relies on `scc::HashMap::insert`: it inserts the pair when the key is
/// absent, and otherwise hands the pair back and leaves the map as it was.
#[verifier::external_body]
fn dyn_map_insert(m: &mut DynMap, key: String, value: Value) -> (r: bool)
    ensures
        r == !dyn_map_keys(*old(m)).contains(key@),
        dyn_map_keys(*final(m)) == dyn_map_keys(*old(m)).insert(key@),
{
    m.entries.insert(key, value).is_ok()
}

impl DynMap {
    /// An empty bag.
    pub fn new() -> (r: Self)
        ensures
            dyn_map_keys(r) == Set::<Seq<char>>::empty(),
    {
        empty_dyn_map()
    }

    /// Adds `key` with `value` unless the key is already there; returns
    /// whether it was added.
    pub fn insert(&mut self, key: String, value: Value) -> (r: bool)
        ensures
            r == !dyn_map_keys(*old(self)).contains(key@),
            dyn_map_keys(*final(self)) == dyn_map_keys(*old(self)).insert(key@),
    {
        dyn_map_insert(self, key, value)
    }
}

/// A runtime value: one variant per [`Type`].
///
/// Floating-point values are held as their IEEE-754 bit patterns
/// (`f32::to_bits`, `f64::to_bits`).
#[derive(Debug)]
pub enum Value {
    Array(Vec<Value>),
    Bool(bool),
    DateTime(Timestamp),
    Duration(std::time::Duration),
    Int8(i8),
    Int16(i16),
    Int32(i32),
    Int64(i64),
    Float32(u32),
    Float64(u64),
    DynMap(DynMap),
    Object(Object),
    String(String),
    Uint8(u8),
    Uint16(u16),
    Uint32(u32),
    Uint64(u64),
    Uint128(u128),
    Uuid(uuid::Uuid),
}

impl Value {
    /// The tag of the variant.
    pub open spec fn type_of(&self) -> Type {
        match self {
            Value::Array(_) => Type::Array,
            Value::Bool(_) => Type::Bool,
            Value::DateTime(_) => Type::DateTime,
            Value::Duration(_) => Type::Duration,
            Value::Int8(_) => Type::Int8,
            Value::Int16(_) => Type::Int16,
            Value::Int32(_) => Type::Int32,
            Value::Int64(_) => Type::Int64,
            Value::Float32(_) => Type::Float32,
            Value::Float64(_) => Type::Float64,
            Value::DynMap(_) => Type::DynMap,
            Value::Object(_) => Type::Object,
            Value::String(_) => Type::String,
            Value::Uint8(_) => Type::Uint8,
            Value::Uint16(_) => Type::Uint16,
            Value::Uint32(_) => Type::Uint32,
            Value::Uint64(_) => Type::Uint64,
            Value::Uint128(_) => Type::Uint128,
            Value::Uuid(_) => Type::Uuid,
        }
    }

    /// The type of this value.
    pub fn ty(&self) -> (r: Type)
        ensures
            r == self.type_of(),
    {
        match self {
            Value::Array(_) => Type::Array,
            Value::Bool(_) => Type::Bool,
            Value::DateTime(_) => Type::DateTime,
            Value::Duration(_) => Type::Duration,
            Value::Int8(_) => Type::Int8,
            Value::Int16(_) => Type::Int16,
            Value::Int32(_) => Type::Int32,
            Value::Int64(_) => Type::Int64,
            Value::Float32(_) => Type::Float32,
            Value::Float64(_) => Type::Float64,
            Value::DynMap(_) => Type::DynMap,
            Value::Object(_) => Type::Object,
            Value::String(_) => Type::String,
            Value::Uint8(_) => Type::Uint8,
            Value::Uint16(_) => Type::Uint16,
            Value::Uint32(_) => Type::Uint32,
            Value::Uint64(_) => Type::Uint64,
            Value::Uint128(_) => Type::Uint128,
            Value::Uuid(_) => Type::Uuid,
        }
    }
}

} // verus!
