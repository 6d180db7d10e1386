//! The concrete fields, groups, schemes and engines.
//!
//! All engines live on the cycle of BN254 and Grumpkin. The three engines
//! on BN254 differ in their commitment scheme only, and each names the
//! engine on Grumpkin as its secondary.

pub mod bn256_grumpkin;
pub mod hashing;
pub mod keccak;
pub mod kzg_commitment;
pub mod pedersen;
pub mod poseidon;
pub mod traits;
pub mod util;

use vstd::prelude::*;
use crate::provider::bn256_grumpkin::{bn256, grumpkin};
use crate::provider::keccak::Keccak256Transcript;
use crate::provider::kzg_commitment::KZGCommitmentEngine;
use crate::provider::pedersen::CommitmentEngine;
use crate::provider::poseidon::{PoseidonRO, PoseidonROCircuit};
use crate::traits::{order, CurveCycleEquipped, Engine, PrimeField};

verus! {

/// The engine on the Grumpkin curve, with commitments on discrete
/// logarithms.
#[derive(Clone, Copy, Debug, Eq, PartialEq)]
pub struct GrumpkinEngine;

/// The engine on the BN254 curve, with commitments on discrete logarithms.
#[derive(Clone, Copy, Debug, Eq, PartialEq)]
pub struct Bn256EngineIPA;

/// The engine on the BN254 curve, with commitments on a structured
/// reference string, to be opened by Zeromorph.
#[derive(Clone, Copy, Debug, Eq, PartialEq)]
pub struct Bn256EngineZM;

/// The engine on the BN254 curve, with commitments on a structured
/// reference string, to be opened by HyperKZG.
#[derive(Clone, Copy, Debug, Eq, PartialEq)]
pub struct Bn256EngineKZG;

impl Engine for Bn256EngineIPA {
    type Base = bn256::Base;

    type Scalar = bn256::Scalar;

    type GE = bn256::Point;

    type RO = PoseidonRO<bn256::Base, bn256::Scalar>;

    type ROCircuit = PoseidonROCircuit<bn256::Base>;

    type TE = Keccak256Transcript<bn256::Point>;

    type CE = CommitmentEngine<bn256::Point>;
}

impl Engine for GrumpkinEngine {
    type Base = grumpkin::Base;

    type Scalar = grumpkin::Scalar;

    type GE = grumpkin::Point;

    type RO = PoseidonRO<grumpkin::Base, grumpkin::Scalar>;

    type ROCircuit = PoseidonROCircuit<grumpkin::Base>;

    type TE = Keccak256Transcript<grumpkin::Point>;

    type CE = CommitmentEngine<grumpkin::Point>;
}

impl Engine for Bn256EngineZM {
    type Base = bn256::Base;

    type Scalar = bn256::Scalar;

    type GE = bn256::Point;

    type RO = PoseidonRO<bn256::Base, bn256::Scalar>;

    type ROCircuit = PoseidonROCircuit<bn256::Base>;

    type TE = Keccak256Transcript<bn256::Point>;

    type CE = KZGCommitmentEngine<bn256::Point>;
}

impl Engine for Bn256EngineKZG {
    type Base = bn256::Base;

    type Scalar = bn256::Scalar;

    type GE = bn256::Point;

    type RO = PoseidonRO<bn256::Base, bn256::Scalar>;

    type ROCircuit = PoseidonROCircuit<bn256::Base>;

    type TE = Keccak256Transcript<bn256::Point>;

    type CE = KZGCommitmentEngine<bn256::Point>;
}

impl CurveCycleEquipped for Bn256EngineIPA {
    type Secondary = GrumpkinEngine;
}

impl CurveCycleEquipped for Bn256EngineKZG {
    type Secondary = GrumpkinEngine;
}

impl CurveCycleEquipped for Bn256EngineZM {
    type Secondary = GrumpkinEngine;
}

/// On this cycle the scalars of each curve are the coordinates of the
/// other: the group of Grumpkin has as many elements as the coordinate
/// field of BN254, and the group of BN254 as many as the coordinate field
/// of Grumpkin.
pub proof fn lemma_bn256_grumpkin_cycle()
    ensures
        order::<grumpkin::Point>() == <bn256::Base as PrimeField>::modulus(),
        order::<bn256::Point>() == <grumpkin::Base as PrimeField>::modulus(),
        order::<grumpkin::Point>() == bn256::base_modulus(),
        order::<bn256::Point>() == bn256::scalar_modulus(),
{
}

} // verus!
