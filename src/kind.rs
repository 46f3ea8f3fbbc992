//! The closed set of value kinds.
use vstd::prelude::*;

verus! {

/// One tag per kind of value that a record field may hold.
#[derive(Clone, Copy, Debug, PartialEq, Eq, Hash, PartialOrd, Ord, Structural)]
pub enum Type {
    Array,
    Bool,
    DateTime,
    Duration,
    Int8,
    Int16,
    Int32,
    Int64,
    Float32,
    Float64,
    DynMap,
    Object,
    String,
    Uint8,
    Uint16,
    Uint32,
    Uint64,
    Uint128,
    Uuid,
}

} // verus!
