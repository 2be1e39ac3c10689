//! The objects that the store holds, and their in-memory form.

pub mod blob;
pub mod branch;
pub mod builder;
pub mod commit;
pub mod conflict;
pub mod deletion;
pub mod display;
pub mod kept;
pub mod materialize;
pub mod merkle;
pub mod node;
pub mod node_type;
pub mod roundtrip;
pub mod transcript;
pub mod tree;
pub mod unique;
