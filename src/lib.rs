//! An entity-component store: components of many types, each type kept in a
//! sparse set keyed by entity id and reached by the type's tag; with the wire
//! encoding of a few primitives and the small decisions of a world import.

pub mod codec;
pub mod component;
pub mod sparse_set;
pub mod world_import;
