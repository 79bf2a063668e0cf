//! A verified **HyperLogLog** sketch, the probabilistic data structure behind
//! "how many distinct things have I seen" features in analytics pipelines.
//!
//! A sketch keeps `2^p` single-byte registers, however many items go in. Every
//! item is reduced to one 64-bit hash; its first `p` bits select a register,
//! which then holds the highest *rank* (position of the leftmost 1-bit among
//! the other bits) of all the hashes that selected it. The number of distinct
//! items can be estimated from the registers alone.
//!
//! - [`estimator`] holds [`HyperLogLog`] and its operations.
//! - [`sketch`] is the mathematical model that their contracts speak of.
//! - [`hash_bits`] says how a hash is read, and [`item`] where it comes from.
//! - [`laws`] proves what holds across operations: insertion order and
//!   repetition leave no trace, and merging two sketches is the same as having
//!   inserted everything into one.
//! - [`meaning`] says what each part of the model means in plain arithmetic.
//! - [`error`] holds [`HyperLogLogError`].

use vstd::prelude::*;

pub mod error;
pub mod estimator;
pub mod hash_bits;
pub mod item;
pub mod laws;
pub mod meaning;
pub mod sketch;

pub use error::HyperLogLogError;
pub use estimator::HyperLogLog;

verus! {

/// Smallest allowed precision (`p`). `p = 4` gives `m = 16` registers.
pub const MIN_PRECISION: u8 = 4;

/// Largest allowed precision (`p`). `p = 16` gives `m = 65536` registers.
pub const MAX_PRECISION: u8 = 16;

}
