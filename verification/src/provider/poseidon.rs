//! The Poseidon sponge as the random oracle of an engine.

use vstd::prelude::*;
use std::marker::PhantomData;
use crate::traits::{PrimeField, ROCircuitTrait, ROTrait};

verus! {

/// Poseidon over `Base`, squeezed into `Scalar`, computed outside a
/// circuit.
pub struct PoseidonRO<Base: PrimeField, Scalar: PrimeField> {
    _base: PhantomData<Base>,
    _scalar: PhantomData<Scalar>,
}

/// Poseidon over `Base`, laid out as constraints.
pub struct PoseidonROCircuit<Base: PrimeField> {
    _base: PhantomData<Base>,
}

impl<Base: PrimeField, Scalar: PrimeField> ROTrait<Base, Scalar> for PoseidonRO<Base, Scalar> {
}

impl<Base: PrimeField> ROCircuitTrait<Base> for PoseidonROCircuit<Base> {
}

} // verus!
