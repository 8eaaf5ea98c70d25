//! A local content-addressable snapshot store: it captures the shape and
//! content of a file-system subtree as a tree of nodes, deduplicates file
//! content by content digest into a shared object store, recovers a named
//! snapshot into a destination, and reclaims unreferenced objects by
//! mark-and-sweep. This crate holds the verified core: the tree model, the
//! registry, and the plans that describe every object-store and
//! recovery action as plain values; an unverified shell performs the actual
//! file-system work those plans describe.

pub mod digest;
pub mod laws;
pub mod node;
pub mod order;
pub mod plan;
pub mod store;
