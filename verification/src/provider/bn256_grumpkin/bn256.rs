//! The two fields of the BN254 curve and its group of points.
//!
//! Field and group arithmetic is done by the `halo2curves` crate. What this
//! module takes from it without proof is stated on the private functions
//! that make the calls.

use vstd::prelude::*;
use vstd::arithmetic::power2::*;
use halo2curves::group::Curve;
use halo2curves::group::GroupEncoding;
use halo2curves::CurveExt;
use vstd::arithmetic::div_mod::lemma_mod_bound;
use crate::little_endian::{bytes_equal, le_value, lemma_le_value_injective, lemma_le_value_zeros};
use crate::traits::{DlogGroup, PrimeField};

verus! {

/// The order of the group of points, which is the modulus of the scalar
/// field: `0x30644e72e131a029b85045b68181585d2833e84879b9709143e1f593f0000001`.
pub open spec fn scalar_modulus() -> nat {
    ((0x30644e72e131a029nat * 0x1_0000_0000_0000_0000 + 0xb85045b68181585d)
        * 0x1_0000_0000_0000_0000 + 0x2833e84879b97091) * 0x1_0000_0000_0000_0000
        + 0x43e1f593f0000001
}

/// The modulus of the field of coordinates:
/// `0x30644e72e131a029b85045b68181585d97816a916871ca8d3c208c16d87cfd47`.
pub open spec fn base_modulus() -> nat {
    ((0x30644e72e131a029nat * 0x1_0000_0000_0000_0000 + 0xb85045b68181585d)
        * 0x1_0000_0000_0000_0000 + 0x97816a916871ca8d) * 0x1_0000_0000_0000_0000
        + 0x3c208c16d87cfd47
}

/// Both moduli have 254 bits.
pub proof fn lemma_moduli_bounds()
    ensures
        pow2(250) <= scalar_modulus() < pow2(256),
        pow2(250) <= base_modulus() < pow2(256),
{
    lemma2_to64();
    lemma2_to64_rest();
    lemma_pow2_adds(64, 64);
    lemma_pow2_adds(128, 64);
    lemma_pow2_adds(192, 58);
    lemma_pow2_adds(192, 64);
}

/// The canonical encoding of the point that `bytes` decode to as a
/// compressed point of the curve, if they decode to one.
pub uninterp spec fn g1_decoded(bytes: Seq<u8>) -> Option<Seq<u8>>;

/// The canonical encoding of `k` times the generator of the curve.
pub uninterp spec fn g1_multiple(k: nat) -> Seq<u8>;

/// The canonical encoding of the point that `message` hashes to under the
/// prefix `domain`.
pub uninterp spec fn g1_hashed(domain: Seq<char>, message: Seq<u8>) -> Seq<u8>;

/// Whether `encoding` is the canonical encoding of a point of the curve:
/// of a multiple of the generator below the order.
pub open spec fn g1_is_element(encoding: Seq<u8>) -> bool {
    exists|k: nat| k < scalar_modulus() && g1_multiple(k) == encoding
}

/// Calls `Fr::from_bytes`, which accepts exactly the little-endian
/// encodings of the numbers below the scalar modulus.
#[verifier::external_body]
fn fr_accepts(bytes: &[u8; 32]) -> (r: bool)
    ensures
        r == (le_value(bytes@) < scalar_modulus()),
{
    halo2curves::bn256::Fr::from_bytes(bytes).is_some().into()
}

/// Calls `Fq::from_bytes`, which accepts exactly the little-endian
/// encodings of the numbers below the base modulus.
#[verifier::external_body]
fn fq_accepts(bytes: &[u8; 32]) -> (r: bool)
    ensures
        r == (le_value(bytes@) < base_modulus()),
{
    halo2curves::bn256::Fq::from_bytes(bytes).is_some().into()
}

/// Calls the `+` of `Fr` on the elements with the given encodings: addition
/// modulo the scalar modulus.
#[verifier::external_body]
fn fr_add(a: &[u8; 32], b: &[u8; 32]) -> (r: [u8; 32])
    requires
        le_value(a@) < scalar_modulus(),
        le_value(b@) < scalar_modulus(),
    ensures
        le_value(r@) == (le_value(a@) + le_value(b@)) % scalar_modulus(),
{
    let x = halo2curves::bn256::Fr::from_bytes(a).unwrap();
    let y = halo2curves::bn256::Fr::from_bytes(b).unwrap();
    (x + y).to_bytes()
}

/// Calls the `*` of `Fr` on the elements with the given encodings:
/// multiplication modulo the scalar modulus.
#[verifier::external_body]
fn fr_mul(a: &[u8; 32], b: &[u8; 32]) -> (r: [u8; 32])
    requires
        le_value(a@) < scalar_modulus(),
        le_value(b@) < scalar_modulus(),
    ensures
        le_value(r@) == (le_value(a@) * le_value(b@)) % scalar_modulus(),
{
    let x = halo2curves::bn256::Fr::from_bytes(a).unwrap();
    let y = halo2curves::bn256::Fr::from_bytes(b).unwrap();
    (x * y).to_bytes()
}

/// Calls the `+` of `Fq` on the elements with the given encodings: addition
/// modulo the base modulus.
#[verifier::external_body]
fn fq_add(a: &[u8; 32], b: &[u8; 32]) -> (r: [u8; 32])
    requires
        le_value(a@) < base_modulus(),
        le_value(b@) < base_modulus(),
    ensures
        le_value(r@) == (le_value(a@) + le_value(b@)) % base_modulus(),
{
    let x = halo2curves::bn256::Fq::from_bytes(a).unwrap();
    let y = halo2curves::bn256::Fq::from_bytes(b).unwrap();
    (x + y).to_bytes()
}

/// Calls the `*` of `Fq` on the elements with the given encodings:
/// multiplication modulo the base modulus.
#[verifier::external_body]
fn fq_mul(a: &[u8; 32], b: &[u8; 32]) -> (r: [u8; 32])
    requires
        le_value(a@) < base_modulus(),
        le_value(b@) < base_modulus(),
    ensures
        le_value(r@) == (le_value(a@) * le_value(b@)) % base_modulus(),
{
    let x = halo2curves::bn256::Fq::from_bytes(a).unwrap();
    let y = halo2curves::bn256::Fq::from_bytes(b).unwrap();
    (x * y).to_bytes()
}

/// Calls `G1Affine::from_bytes` and, where it accepts, `to_bytes`: the
/// result is the canonical encoding of the decoded point. The points of the
/// curve form a group of prime order, so the point is a multiple of the
/// generator.
#[verifier::external_body]
fn g1_decode(bytes: &[u8; 32]) -> (r: Option<[u8; 32]>)
    ensures
        r is Some <==> g1_decoded(bytes@) is Some,
        r matches Some(e) ==> g1_decoded(bytes@) == Some(e@) && g1_is_element(e@),
{
    let mut repr = halo2curves::bn256::G1Compressed::default();
    repr.as_mut().copy_from_slice(bytes);
    let point: Option<halo2curves::bn256::G1Affine> =
        halo2curves::bn256::G1Affine::from_bytes(&repr).into();
    point.map(|p| {
        let mut out = [0u8; 32];
        out.copy_from_slice(p.to_bytes().as_ref());
        out
    })
}

/// Calls the `+` of `G1Affine`: the group law, under which `i` times the
/// generator plus `j` times the generator is `i + j` times the generator,
/// and as many times as the order is no times.
#[verifier::external_body]
fn g1_add(a: &[u8; 32], b: &[u8; 32]) -> (r: [u8; 32])
    requires
        g1_is_element(a@),
        g1_is_element(b@),
    ensures
        forall|i: nat, j: nat|
            a@ == #[trigger] g1_multiple(i) && b@ == #[trigger] g1_multiple(j) ==> r@
                == g1_multiple((i + j) % scalar_modulus()),
{
    let mut ra = halo2curves::bn256::G1Compressed::default();
    ra.as_mut().copy_from_slice(a);
    let mut rb = halo2curves::bn256::G1Compressed::default();
    rb.as_mut().copy_from_slice(b);
    let p = halo2curves::bn256::G1Affine::from_bytes(&ra).unwrap();
    let q = halo2curves::bn256::G1Affine::from_bytes(&rb).unwrap();
    let mut out = [0u8; 32];
    out.copy_from_slice((p + q).to_affine().to_bytes().as_ref());
    out
}

/// Calls the `*` of `G1Affine` on the generator and the scalar with the
/// given encoding: the generator taken that many times.
#[verifier::external_body]
fn g1_generator_times(s: &[u8; 32]) -> (r: [u8; 32])
    requires
        le_value(s@) < scalar_modulus(),
    ensures
        r@ == g1_multiple(le_value(s@)),
{
    let scalar = halo2curves::bn256::Fr::from_bytes(s).unwrap();
    let mut out = [0u8; 32];
    out.copy_from_slice(
        (halo2curves::bn256::G1Affine::generator() * scalar).to_affine().to_bytes().as_ref(),
    );
    out
}

/// Calls `G1::hash_to_curve`, which is a function of the prefix and the
/// message and always lands on the curve. It panics on a prefix of more
/// than 225 bytes.
#[verifier::external_body]
fn g1_hash_to_curve(domain: &str, message: &[u8]) -> (r: [u8; 32])
    requires
        domain.is_ascii(),
        domain@.len() <= 128,
    ensures
        g1_is_element(r@),
        r@ == g1_hashed(domain@, message@),
{
    let hash = halo2curves::bn256::G1::hash_to_curve(domain);
    let mut out = [0u8; 32];
    out.copy_from_slice(hash(message).to_affine().to_bytes().as_ref());
    out
}

/// An element of the scalar field of BN254.
#[derive(Clone, Copy, Debug, PartialEq, Eq)]
pub struct Scalar {
    repr: [u8; 32],
}

impl Scalar {
    #[verifier::type_invariant]
    spec fn is_reduced(self) -> bool {
        le_value(self.repr@) < scalar_modulus()
    }
}

impl PrimeField for Scalar {
    open spec fn modulus() -> nat {
        scalar_modulus()
    }

    closed spec fn value(&self) -> nat {
        le_value(self.repr@)
    }

    proof fn modulus_bounds() {
        lemma_moduli_bounds();
    }

    fn from_bytes(bytes: &[u8; 32]) -> (r: Option<Self>) {
        if fr_accepts(bytes) {
            Some(Scalar { repr: *bytes })
        } else {
            None
        }
    }

    fn to_bytes(&self) -> (r: [u8; 32]) {
        proof {
            use_type_invariant(self);
        }
        self.repr
    }

    fn zero() -> (r: Self) {
        let repr = [0u8; 32];
        proof {
            lemma_le_value_zeros(repr@);
            lemma_moduli_bounds();
            lemma_pow2_pos(250);
        }
        Scalar { repr }
    }

    fn one() -> (r: Self) {
        let mut repr = [0u8; 32];
        repr[0] = 1;
        proof {
            lemma_le_value_zeros(repr@.drop_first());
            lemma_moduli_bounds();
            lemma_pow2_strictly_increases(0, 250);
            lemma2_to64();
        }
        Scalar { repr }
    }

    fn add(&self, other: &Self) -> (r: Self) {
        proof {
            use_type_invariant(self);
            use_type_invariant(other);
            lemma_moduli_bounds();
            lemma_pow2_pos(250);
            lemma_mod_bound((le_value(self.repr@) + le_value(other.repr@)) as int, scalar_modulus() as int);
        }
        Scalar { repr: fr_add(&self.repr, &other.repr) }
    }

    fn mul(&self, other: &Self) -> (r: Self) {
        proof {
            use_type_invariant(self);
            use_type_invariant(other);
            lemma_moduli_bounds();
            lemma_pow2_pos(250);
            lemma_mod_bound((le_value(self.repr@) * le_value(other.repr@)) as int, scalar_modulus() as int);
        }
        Scalar { repr: fr_mul(&self.repr, &other.repr) }
    }

    fn equals(&self, other: &Self) -> (r: bool) {
        proof {
            if le_value(self.repr@) == le_value(other.repr@) {
                lemma_le_value_injective(self.repr@, other.repr@);
            }
        }
        bytes_equal(&self.repr, &other.repr)
    }
}

/// An element of the field of coordinates of BN254.
#[derive(Clone, Copy, Debug, PartialEq, Eq)]
pub struct Base {
    repr: [u8; 32],
}

impl Base {
    #[verifier::type_invariant]
    spec fn is_reduced(self) -> bool {
        le_value(self.repr@) < base_modulus()
    }
}

impl PrimeField for Base {
    open spec fn modulus() -> nat {
        base_modulus()
    }

    closed spec fn value(&self) -> nat {
        le_value(self.repr@)
    }

    proof fn modulus_bounds() {
        lemma_moduli_bounds();
    }

    fn from_bytes(bytes: &[u8; 32]) -> (r: Option<Self>) {
        if fq_accepts(bytes) {
            Some(Base { repr: *bytes })
        } else {
            None
        }
    }

    fn to_bytes(&self) -> (r: [u8; 32]) {
        proof {
            use_type_invariant(self);
        }
        self.repr
    }

    fn zero() -> (r: Self) {
        let repr = [0u8; 32];
        proof {
            lemma_le_value_zeros(repr@);
            lemma_moduli_bounds();
            lemma_pow2_pos(250);
        }
        Base { repr }
    }

    fn one() -> (r: Self) {
        let mut repr = [0u8; 32];
        repr[0] = 1;
        proof {
            lemma_le_value_zeros(repr@.drop_first());
            lemma_moduli_bounds();
            lemma_pow2_strictly_increases(0, 250);
            lemma2_to64();
        }
        Base { repr }
    }

    fn add(&self, other: &Self) -> (r: Self) {
        proof {
            use_type_invariant(self);
            use_type_invariant(other);
            lemma_moduli_bounds();
            lemma_pow2_pos(250);
            lemma_mod_bound((le_value(self.repr@) + le_value(other.repr@)) as int, base_modulus() as int);
        }
        Base { repr: fq_add(&self.repr, &other.repr) }
    }

    fn mul(&self, other: &Self) -> (r: Self) {
        proof {
            use_type_invariant(self);
            use_type_invariant(other);
            lemma_moduli_bounds();
            lemma_pow2_pos(250);
            lemma_mod_bound((le_value(self.repr@) * le_value(other.repr@)) as int, base_modulus() as int);
        }
        Base { repr: fq_mul(&self.repr, &other.repr) }
    }

    fn equals(&self, other: &Self) -> (r: bool) {
        proof {
            if le_value(self.repr@) == le_value(other.repr@) {
                lemma_le_value_injective(self.repr@, other.repr@);
            }
        }
        bytes_equal(&self.repr, &other.repr)
    }
}

/// A point of the BN254 curve.
#[derive(Clone, Copy, Debug, PartialEq, Eq)]
pub struct Point {
    repr: [u8; 32],
}

impl Point {
    #[verifier::type_invariant]
    spec fn is_element(self) -> bool {
        g1_is_element(self.repr@)
    }
}

impl DlogGroup for Point {
    type Base = Base;

    type Scalar = Scalar;

    open spec fn multiple(k: nat) -> Seq<u8> {
        g1_multiple(k)
    }

    closed spec fn encoding(&self) -> Seq<u8> {
        self.repr@
    }

    closed spec fn index(&self) -> nat {
        choose|k: nat| k < scalar_modulus() && g1_multiple(k) == self.repr@
    }

    open spec fn decoded(bytes: Seq<u8>) -> Option<Seq<u8>> {
        g1_decoded(bytes)
    }

    open spec fn hashed(domain: Seq<char>, message: Seq<u8>) -> Seq<u8> {
        g1_hashed(domain, message)
    }

    fn identity() -> (r: Self) {
        Self::generator_times(&Self::Scalar::zero())
    }

    fn generator() -> (r: Self) {
        Self::generator_times(&Self::Scalar::one())
    }

    fn generator_times(s: &Self::Scalar) -> (r: Self) {
        let bytes = s.to_bytes();
        Point { repr: g1_generator_times(&bytes) }
    }

    fn add(&self, other: &Self) -> (r: Self) {
        proof {
            use_type_invariant(self);
            use_type_invariant(other);
        }
        let repr = g1_add(&self.repr, &other.repr);
        proof {
            lemma_moduli_bounds();
            lemma_pow2_pos(250);
            let i = self.index();
            let j = other.index();
            assert(repr@ == g1_multiple((i + j) % scalar_modulus()));
            lemma_mod_bound((i + j) as int, scalar_modulus() as int);
        }
        Point { repr }
    }

    fn equals(&self, other: &Self) -> (r: bool) {
        bytes_equal(&self.repr, &other.repr)
    }

    fn from_bytes(bytes: &[u8; 32]) -> (r: Option<Self>) {
        match g1_decode(bytes) {
            Some(repr) => Some(Point { repr }),
            None => None,
        }
    }

    fn to_bytes(&self) -> (r: [u8; 32]) {
        proof {
            use_type_invariant(self);
        }
        self.repr
    }

    fn hash_to_curve(domain: &str, message: &[u8]) -> (r: Self) {
        Point { repr: g1_hash_to_curve(domain, message) }
    }
}

} // verus!
