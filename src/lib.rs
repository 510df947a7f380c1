//! BLAKE2s: a keyed hash with digests of 1 to 32 bytes, fed incrementally.
//!
//! `model` states the algorithm as spec functions; `engine` holds the
//! executable hasher, whose contracts say that its digest is the model's
//! digest of every byte absorbed so far.
pub mod model;
pub mod bytes;
pub mod mixing;
pub mod engine;
pub mod laws;
