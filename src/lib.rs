//! Structural fingerprints for semi-structured records.
//!
//! A field is identified by a deterministic 64-bit hash of its name and the
//! type of its value; a record's shape by a hash of the ordered list of its
//! field ids. The [`Registry`] deduplicates these definitions and serves them
//! back by id.
pub mod archetypes;
pub mod kind;
pub mod record;
pub mod registry;
pub mod value;

pub use archetypes::{FieldArchetype, FieldArchetypeId, ObjectArchetype, ObjectArchetypeId};
pub use kind::Type;
pub use record::Object;
pub use registry::Registry;
pub use value::{DynMap, Timestamp, Value};
