//! The commitment scheme on a structured reference string: its generators
//! are the powers of a trapdoor applied to the group's generator.
//!
//! A key for production comes out of a setup that has to be trusted to
//! have forgotten the trapdoor, and is loaded with
//! [`CommitmentKey::from_generators`]. The setup here derives the trapdoor
//! from the label and is for testing: who knows the label knows the
//! trapdoor.

use vstd::prelude::*;
use vstd::arithmetic::div_mod::lemma_mul_mod_noop_left;
use vstd::arithmetic::power::{lemma_pow0, lemma_pow1, lemma_pow_adds, pow};
use vstd::arithmetic::power2::{lemma_pow2_strictly_increases, pow2};
use std::marker::PhantomData;
use crate::little_endian::{
    le_value, lemma_le_value_bound, lemma_le_value_single, lemma_le_value_split,
};
use crate::provider::hashing::{shake256_prefix, shake256_read};
use crate::provider::util::msm::lemma_order_positive;
use crate::traits::commitment::{CommitmentEngineTrait, CommitmentKey};
use crate::traits::{order, DlogGroup, PrimeField};

verus! {

/// The scheme over the group `G`.
pub struct KZGCommitmentEngine<G: DlogGroup> {
    _group: PhantomData<G>,
}

/// The trapdoor that the testing setup derives from a label: the first 31
/// bytes of the stream that the label expands to, read as a number.
pub open spec fn trapdoor(label: Seq<u8>) -> nat {
    le_value(shake256_prefix(label, 31))
}

/// The index of the generator at position `i` of a key with the trapdoor
/// `tau`: the `i`-th power of `tau`, reduced by the order.
pub open spec fn power_index<G: DlogGroup>(tau: nat, i: nat) -> nat {
    (pow(tau as int, i) % (order::<G>() as int)) as nat
}

/// The scalar with the value `trapdoor(label)`.
pub fn derive_trapdoor<F: PrimeField>(label: &[u8]) -> (r: F)
    ensures
        r.value() == trapdoor(label@),
{
    let stream = shake256_read(label, 31);
    let mut bytes = [0u8; 32];
    let mut i: usize = 0;
    while i < 31
        invariant
            i <= 31,
            stream@.len() == 31,
            bytes@.len() == 32,
            bytes@[31] == 0,
            forall|j: int| 0 <= j < i ==> bytes@[j] == stream@[j],
        decreases 31 - i,
    {
        bytes[i] = stream[i];
        i = i + 1;
    }
    proof {
        assert(stream@ =~= shake256_prefix(label@, 31));
        assert(bytes@.take(31) =~= stream@);
        assert(bytes@.skip(31) =~= seq![0u8]);
        lemma_le_value_single(0);
        lemma_le_value_split(bytes@, 31);
        lemma_le_value_bound(stream@);
        assert(pow2(248) * 0 == 0);
        lemma_pow2_strictly_increases(248, 250);
        F::modulus_bounds();
    }
    F::from_bytes(&bytes).unwrap()
}

impl<G: DlogGroup> CommitmentEngineTrait<G> for KZGCommitmentEngine<G> {
    /// The key of the first `n` powers of the trapdoor that the label
    /// derives.
    fn setup(label: &[u8], n: usize) -> (ck: CommitmentKey<G>)
        ensures
            forall|i: int|
                0 <= i < n ==> (#[trigger] ck.ck@[i]).encoding() == G::multiple(
                    power_index::<G>(trapdoor(label@), i as nat),
                ),
    {
        let tau = derive_trapdoor::<G::Scalar>(label);
        let ghost t = trapdoor(label@);
        let ghost m = order::<G>() as int;
        let mut powers: Vec<G> = Vec::new();
        let mut power = <G::Scalar as PrimeField>::one();
        let mut i: usize = 0;
        proof {
            lemma_order_positive::<G>();
            lemma_pow0(t as int);
            <G::Scalar as PrimeField>::modulus_bounds();
            lemma_pow2_strictly_increases(0, 250);
            vstd::arithmetic::power2::lemma2_to64();
            vstd::arithmetic::div_mod::lemma_small_mod(1, m as nat);
        }
        while i < n
            invariant
                i <= n,
                m == order::<G>(),
                m > 0,
                t == trapdoor(label@),
                tau.value() == t,
                powers@.len() == i,
                power.value() == power_index::<G>(t, i as nat),
                forall|j: int|
                    0 <= j < i ==> (#[trigger] powers@[j]).encoding() == G::multiple(
                        power_index::<G>(t, j as nat),
                    ),
            decreases n - i,
        {
            powers.push(G::generator_times(&power));
            proof {
                let p = pow(t as int, i as nat);
                lemma_pow_adds(t as int, 1, i as nat);
                lemma_pow1(t as int);
                lemma_mul_mod_noop_left(p, t as int, m);
                assert(p * t == t * p) by (nonlinear_arith);
            }
            power = power.mul(&tau);
            i = i + 1;
        }
        CommitmentKey::from_generators(powers)
    }
}

} // verus!
