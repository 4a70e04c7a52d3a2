//! The recursive-state and hashing core of a folding-based IVC step.
//!
//! - `field`: elements of the native and support fields, with arithmetic
//!   through the pasta field of halo2curves.
//! - `scheme`: the objects that the folding schemes hand over.
//! - `input`: their canonical form, the order in which it is absorbed, and
//!   the assembly of the per-step witness.
//! - `poseidon`: the permutation and the sponge, evaluated directly.
//! - `chip`: the same permutation and sponge laid out as constraint rows,
//!   proved to compute the same values.
//! - `stream`: flattening helpers for absorbed streams.
use vstd::prelude::*;

pub mod field;
pub mod stream;
pub mod scheme;
pub mod input;
pub mod poseidon;
pub mod chip;

verus! {

} // verus!
