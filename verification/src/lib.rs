//! A local, single-user version-control engine: a content-addressed object
//! store, a Merkle tree of blobs and trees, a two-way merge engine and an
//! append-only commit and branch graph.

pub mod diff;
pub mod digest;
pub mod error;
pub mod features;
pub mod objects;
pub mod paths;
pub mod repository;
pub mod search;
pub mod store;
pub mod text;
pub mod utils;
