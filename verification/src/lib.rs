//! Erasure-coded object storage engine.
//!
//! An object (an arbitrary byte buffer) is split into `k` equal-length data
//! shards, extended with `m` Reed-Solomon parity shards over GF(256), and each
//! of the `k + m` shards is assigned to one of `N` fixed storage locations by
//! a deterministic hash of the object identifier and the shard index.  Any `k`
//! of the `k + m` shards suffice to reconstruct the object.
//!
//! The modules, leaves first:
//! - [`errors`]: the error taxonomy shared by all components.
//! - [`digits`]: decimal rendering of shard indices, used in keys and hashing.
//! - [`placement`]: the pure placement resolver (shard -> location).
//! - [`store`]: shard addressing and the outcomes a durability layer reports.
//! - [`codec`]: the erasure codec (encode / decode with reconstruction).
//! - [`pipeline`]: the decision logic of put / get / delete over the above.
//! - [`metadata`]: plain records describing stored objects and buckets.
//!
//! The codec calls into the `reed_solomon_erasure` crate for the finite-field
//! parity computation and reconstruction; everything around those two calls is
//! verified against the contracts stated here.

pub mod codec;
pub mod digits;
pub mod errors;
pub mod metadata;
pub mod pipeline;
pub mod placement;
pub mod store;
