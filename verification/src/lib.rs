//! The engine layer of a folding-based proof system: prime fields and
//! prime-order groups bound into named engines, multi-scalar multiplication,
//! commitment keys derived from a label, vector commitments, and the
//! contracts that a SNARK over relaxed R1CS has to meet.
//!
//! Group elements and field elements are held by their canonical 32-byte
//! encodings. The groups are cyclic, so every element is a multiple of its
//! group's fixed generator, and a statement about an element says which
//! multiple its encoding is the encoding of. Sums of elements are then
//! sums of integers modulo the order.

pub mod digest;
pub mod errors;
pub mod little_endian;
pub mod provider;
pub mod r1cs;
pub mod supernova;
pub mod traits;

use vstd::prelude::*;
use crate::traits::Engine;

verus! {

/// The commitment key of an engine.
pub type CommitmentKey<E> = crate::traits::commitment::CommitmentKey<<E as Engine>::GE>;

/// A commitment under an engine.
pub type Commitment<E> = crate::traits::commitment::Commitment<<E as Engine>::GE>;

} // verus!
