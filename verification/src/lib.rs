//! A structure-aware fuzz-value generation, mutation, and serialization
//! engine.
//!
//! Given a runtime description of a structured value's shape (fields,
//! variants, numeric ranges, size limits), the library synthesizes new
//! pseudo-random instances of that value under the declared constraints,
//! mutates existing instances while respecting the same constraints, and
//! serializes any such value to an exact byte representation with explicit
//! endianness.

pub mod endian;
pub mod generate;
pub mod laws;
pub mod mutate;
pub mod mutator;
pub mod rng;
pub mod selector;
pub mod shape;
pub mod serialize;
pub mod types;
pub mod value;
