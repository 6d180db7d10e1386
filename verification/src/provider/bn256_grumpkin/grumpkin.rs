//! The Grumpkin curve: its points have coordinates in the scalar field of
//! BN254 and are counted by the coordinate field of BN254.
//!
//! Group arithmetic is done by the `halo2curves` crate. What this module
//! takes from it without proof is stated on the private functions that make
//! the calls.

use vstd::prelude::*;
use vstd::arithmetic::div_mod::lemma_mod_bound;
use vstd::arithmetic::power2::lemma_pow2_pos;
use halo2curves::group::Curve;
use halo2curves::group::GroupEncoding;
use halo2curves::CurveExt;
use crate::provider::bn256_grumpkin::bn256;
use crate::little_endian::{bytes_equal, le_value};
use crate::provider::bn256_grumpkin::bn256::{base_modulus, lemma_moduli_bounds};
use crate::traits::{DlogGroup, PrimeField};

verus! {

/// The field of coordinates of Grumpkin is the scalar field of BN254.
pub type Base = bn256::Scalar;

/// The scalar field of Grumpkin is the field of coordinates of BN254.
pub type Scalar = bn256::Base;

/// The canonical encoding of the point that `bytes` decode to as a
/// compressed point of the curve, if they decode to one.
pub uninterp spec fn g1_decoded(bytes: Seq<u8>) -> Option<Seq<u8>>;

/// The canonical encoding of `k` times the generator of the curve.
pub uninterp spec fn g1_multiple(k: nat) -> Seq<u8>;

/// The canonical encoding of the point that `message` hashes to under the
/// prefix `domain`.
pub uninterp spec fn g1_hashed(domain: Seq<char>, message: Seq<u8>) -> Seq<u8>;

/// Whether `encoding` is the canonical encoding of a point of the curve:
/// of a multiple of the generator below the order.
pub open spec fn g1_is_element(encoding: Seq<u8>) -> bool {
    exists|k: nat| k < base_modulus() && g1_multiple(k) == encoding
}

/// Calls `G1Affine::from_bytes` and, where it accepts, `to_bytes`: the
/// result is the canonical encoding of the decoded point. The points of the
/// curve form a group of prime order, so the point is a multiple of the
/// generator.
#[verifier::external_body]
fn g1_decode(bytes: &[u8; 32]) -> (r: Option<[u8; 32]>)
    ensures
        r is Some <==> g1_decoded(bytes@) is Some,
        r matches Some(e) ==> g1_decoded(bytes@) == Some(e@) && g1_is_element(e@),
{
    let mut repr = halo2curves::grumpkin::G1Compressed::default();
    repr.as_mut().copy_from_slice(bytes);
    let point: Option<halo2curves::grumpkin::G1Affine> =
        halo2curves::grumpkin::G1Affine::from_bytes(&repr).into();
    point.map(|p| {
        let mut out = [0u8; 32];
        out.copy_from_slice(p.to_bytes().as_ref());
        out
    })
}

/// Calls the `+` of `G1Affine`: the group law, under which `i` times the
/// generator plus `j` times the generator is `i + j` times the generator,
/// and as many times as the order is no times.
#[verifier::external_body]
fn g1_add(a: &[u8; 32], b: &[u8; 32]) -> (r: [u8; 32])
    requires
        g1_is_element(a@),
        g1_is_element(b@),
    ensures
        forall|i: nat, j: nat|
            a@ == #[trigger] g1_multiple(i) && b@ == #[trigger] g1_multiple(j) ==> r@
                == g1_multiple((i + j) % base_modulus()),
{
    let mut ra = halo2curves::grumpkin::G1Compressed::default();
    ra.as_mut().copy_from_slice(a);
    let mut rb = halo2curves::grumpkin::G1Compressed::default();
    rb.as_mut().copy_from_slice(b);
    let p = halo2curves::grumpkin::G1Affine::from_bytes(&ra).unwrap();
    let q = halo2curves::grumpkin::G1Affine::from_bytes(&rb).unwrap();
    let mut out = [0u8; 32];
    out.copy_from_slice((p + q).to_affine().to_bytes().as_ref());
    out
}

/// Calls the `*` of `G1Affine` on the generator and the scalar with the
/// given encoding: the generator taken that many times.
#[verifier::external_body]
fn g1_generator_times(s: &[u8; 32]) -> (r: [u8; 32])
    requires
        le_value(s@) < base_modulus(),
    ensures
        r@ == g1_multiple(le_value(s@)),
{
    let scalar = halo2curves::grumpkin::Fr::from_bytes(s).unwrap();
    let mut out = [0u8; 32];
    out.copy_from_slice(
        (halo2curves::grumpkin::G1Affine::generator() * scalar).to_affine().to_bytes().as_ref(),
    );
    out
}

/// Calls `G1::hash_to_curve`, which is a function of the prefix and the
/// message and always lands on the curve. It panics on a prefix of more
/// than 222 bytes.
#[verifier::external_body]
fn g1_hash_to_curve(domain: &str, message: &[u8]) -> (r: [u8; 32])
    requires
        domain.is_ascii(),
        domain@.len() <= 128,
    ensures
        g1_is_element(r@),
        r@ == g1_hashed(domain@, message@),
{
    let hash = halo2curves::grumpkin::G1::hash_to_curve(domain);
    let mut out = [0u8; 32];
    out.copy_from_slice(hash(message).to_affine().to_bytes().as_ref());
    out
}

/// A point of the Grumpkin curve.
#[derive(Clone, Copy, Debug, PartialEq, Eq)]
pub struct Point {
    repr: [u8; 32],
}

impl Point {
    #[verifier::type_invariant]
    spec fn is_element(self) -> bool {
        g1_is_element(self.repr@)
    }
}

impl DlogGroup for Point {
    type Base = Base;

    type Scalar = Scalar;

    open spec fn multiple(k: nat) -> Seq<u8> {
        g1_multiple(k)
    }

    closed spec fn encoding(&self) -> Seq<u8> {
        self.repr@
    }

    closed spec fn index(&self) -> nat {
        choose|k: nat| k < base_modulus() && g1_multiple(k) == self.repr@
    }

    open spec fn decoded(bytes: Seq<u8>) -> Option<Seq<u8>> {
        g1_decoded(bytes)
    }

    open spec fn hashed(domain: Seq<char>, message: Seq<u8>) -> Seq<u8> {
        g1_hashed(domain, message)
    }

    fn identity() -> (r: Self) {
        Self::generator_times(&Self::Scalar::zero())
    }

    fn generator() -> (r: Self) {
        Self::generator_times(&Self::Scalar::one())
    }

    fn generator_times(s: &Self::Scalar) -> (r: Self) {
        let bytes = s.to_bytes();
        Point { repr: g1_generator_times(&bytes) }
    }

    fn add(&self, other: &Self) -> (r: Self) {
        proof {
            use_type_invariant(self);
            use_type_invariant(other);
        }
        let repr = g1_add(&self.repr, &other.repr);
        proof {
            lemma_moduli_bounds();
            lemma_pow2_pos(250);
            let i = self.index();
            let j = other.index();
            assert(repr@ == g1_multiple((i + j) % base_modulus()));
            lemma_mod_bound((i + j) as int, base_modulus() as int);
        }
        Point { repr }
    }

    fn equals(&self, other: &Self) -> (r: bool) {
        bytes_equal(&self.repr, &other.repr)
    }

    fn from_bytes(bytes: &[u8; 32]) -> (r: Option<Self>) {
        match g1_decode(bytes) {
            Some(repr) => Some(Point { repr }),
            None => None,
        }
    }

    fn to_bytes(&self) -> (r: [u8; 32]) {
        proof {
            use_type_invariant(self);
        }
        self.repr
    }

    fn hash_to_curve(domain: &str, message: &[u8]) -> (r: Self) {
        Point { repr: g1_hash_to_curve(domain, message) }
    }
}

} // verus!
