//! A small content-addressable object store in the style of a version
//! control system: file content, directory snapshots and commit metadata
//! are encoded into immutable, hash-addressed records, persisted compressed
//! on disk, and decoded back into structured values.
//!
//! The codec, the hashing-based addressing, the canonical tree construction
//! and the path-exclusion rules are specified and verified here; reading
//! and writing the records on disk is left to the embedding program.

pub mod codec;
pub mod digest;
pub mod digits;
pub mod hex;
pub mod ignore;
pub mod object;
pub mod scan;
pub mod store;
pub mod tree;
pub mod zlib;
