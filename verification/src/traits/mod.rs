//! The capabilities that an engine binds together: a pair of prime fields,
//! a prime-order group over them, and the schemes built on the group.

pub mod commitment;
pub mod snark;

use vstd::prelude::*;
use vstd::arithmetic::power2::pow2;
use crate::little_endian::le_value;
use crate::traits::commitment::CommitmentEngineTrait;

verus! {

/// An element of a prime field, held by its canonical little-endian
/// encoding.
pub trait PrimeField: Sized + Copy {
    /// The number of elements of the field.
    spec fn modulus() -> nat;

    /// The number below the modulus that this element stands for.
    spec fn value(&self) -> nat;

    /// The modulus has between 251 and 256 bits.
    proof fn modulus_bounds()
        ensures
            pow2(250) <= Self::modulus() < pow2(256),
    ;

    /// Reads an element from 32 bytes; only numbers below the modulus are
    /// elements.
    fn from_bytes(bytes: &[u8; 32]) -> (r: Option<Self>)
        ensures
            r is Some <==> le_value(bytes@) < Self::modulus(),
            r matches Some(x) ==> x.value() == le_value(bytes@),
    ;

    /// The canonical encoding of the element.
    fn to_bytes(&self) -> (r: [u8; 32])
        ensures
            le_value(r@) == self.value(),
            self.value() < Self::modulus(),
    ;

    /// The element zero.
    fn zero() -> (r: Self)
        ensures
            r.value() == 0,
    ;

    /// The element one.
    fn one() -> (r: Self)
        ensures
            r.value() == 1,
    ;

    /// The sum of two elements.
    fn add(&self, other: &Self) -> (r: Self)
        ensures
            r.value() == (self.value() + other.value()) % Self::modulus(),
    ;

    /// The product of two elements.
    fn mul(&self, other: &Self) -> (r: Self)
        ensures
            r.value() == (self.value() * other.value()) % Self::modulus(),
    ;

    /// Whether two elements are the same.
    fn equals(&self, other: &Self) -> (r: bool)
        ensures
            r == (self.value() == other.value()),
    ;
}

/// An element of a group of prime order in which discrete logarithms are
/// taken to be hard, held by its canonical 32-byte encoding.
///
/// The group is cyclic: each element is `k` times the fixed generator for
/// some `k` below the order, and the sum of `i` times and `j` times the
/// generator is `i + j` times the generator. Every statement about an
/// element is made through [`DlogGroup::multiple`], the encoding of a
/// multiple of the generator.
pub trait DlogGroup: Sized + Copy {
    /// The field that the coordinates of an element lie in.
    type Base: PrimeField;

    /// The field of the numbers that elements are multiplied by; its modulus
    /// is the order of the group.
    type Scalar: PrimeField;

    /// The canonical encoding of `k` times the generator.
    spec fn multiple(k: nat) -> Seq<u8>;

    /// The canonical encoding of the element.
    spec fn encoding(&self) -> Seq<u8>;

    /// A number below the order for which the element is that multiple of
    /// the generator.
    spec fn index(&self) -> nat;

    /// The canonical encoding of the element that `bytes` decode to, if they
    /// decode to one.
    spec fn decoded(bytes: Seq<u8>) -> Option<Seq<u8>>;

    /// The encoding of the element that a message hashes to under a domain
    /// prefix.
    spec fn hashed(domain: Seq<char>, message: Seq<u8>) -> Seq<u8>;

    /// The neutral element: zero times the generator.
    fn identity() -> (r: Self)
        ensures
            r.encoding() == Self::multiple(0),
    ;

    /// The fixed generator of the group.
    fn generator() -> (r: Self)
        ensures
            r.encoding() == Self::multiple(1),
    ;

    /// The generator taken as often as the scalar says.
    fn generator_times(s: &Self::Scalar) -> (r: Self)
        ensures
            r.encoding() == Self::multiple(s.value()),
    ;

    /// The sum of two elements. Both are multiples of the generator, as their
    /// indices say, and whatever multiples they are, the sum is the
    /// multiple that the sum of the two numbers says, reduced by the order.
    fn add(&self, other: &Self) -> (r: Self)
        ensures
            self.encoding() == Self::multiple(self.index()),
            other.encoding() == Self::multiple(other.index()),
            forall|i: nat, j: nat|
                self.encoding() == #[trigger] Self::multiple(i) && other.encoding()
                    == #[trigger] Self::multiple(j) ==> r.encoding() == Self::multiple(
                    (i + j) % <Self::Scalar as PrimeField>::modulus(),
                ),
    ;

    /// Whether two elements are the same.
    fn equals(&self, other: &Self) -> (r: bool)
        ensures
            r == (self.encoding() == other.encoding()),
    ;

    /// Decodes an element. The result holds the canonical encoding, also
    /// where `bytes` spell the element in another way.
    fn from_bytes(bytes: &[u8; 32]) -> (r: Option<Self>)
        ensures
            r is Some <==> Self::decoded(bytes@) is Some,
            r matches Some(p) ==> Self::decoded(bytes@) == Some(p.encoding()),
    ;

    /// The canonical encoding of the element, which is that of a multiple of
    /// the generator: the one that the index says.
    fn to_bytes(&self) -> (r: [u8; 32])
        ensures
            r@ == self.encoding(),
            self.encoding() == Self::multiple(self.index()),
            self.index() < <Self::Scalar as PrimeField>::modulus(),
    ;

    /// Hashes a message to an element of the group.
    fn hash_to_curve(domain: &str, message: &[u8]) -> (r: Self)
        requires
            domain.is_ascii(),
            domain@.len() <= 128,
        ensures
            r.encoding() == Self::hashed(domain@, message@),
    ;
}

/// The order of the group `G`.
pub open spec fn order<G: DlogGroup>() -> nat {
    <G::Scalar as PrimeField>::modulus()
}

/// Which multiple of the generator the sum of `a` times and `b` times the
/// generator is.
pub open spec fn group_add<G: DlogGroup>(a: nat, b: nat) -> nat {
    (a + b) % order::<G>()
}

/// Which multiple of the generator `p` times the generator is when it is
/// taken `s` times.
pub open spec fn group_mul<G: DlogGroup>(s: nat, p: nat) -> nat {
    (s * p) % order::<G>()
}

/// Names a hash from base-field elements to a scalar as an engine's random
/// oracle outside a circuit.
pub trait ROTrait<Base: PrimeField, Scalar: PrimeField> {
}

/// Names the same hash, laid out as constraints over the base field, as an
/// engine's random oracle inside a circuit.
pub trait ROCircuitTrait<Base: PrimeField> {
}

/// Names a transcript that turns the messages of a protocol into challenges
/// from the scalar field of a group.
pub trait TranscriptEngineTrait<G: DlogGroup> {
}

/// A configuration that fixes a field pair, a group, the random oracles, the
/// transcript and the commitment engine that the proving system is
/// instantiated with.
///
/// The bounds on `GE` make the group's fields the engine's fields.
pub trait Engine: Sized {
    /// The field of the group's coordinates.
    type Base: PrimeField;

    /// The field of the group's scalars.
    type Scalar: PrimeField;

    /// The group.
    type GE: DlogGroup<Base = Self::Base, Scalar = Self::Scalar>;

    /// The random oracle outside a circuit.
    type RO: ROTrait<Self::Base, Self::Scalar>;

    /// The random oracle inside a circuit.
    type ROCircuit: ROCircuitTrait<Self::Base>;

    /// The transcript.
    type TE: TranscriptEngineTrait<Self::GE>;

    /// The commitment engine.
    type CE: CommitmentEngineTrait<Self::GE>;
}

/// An engine paired with a secondary engine over the same two fields in
/// swapped roles, so that a proof over one can be checked inside a circuit
/// over the other with native arithmetic only.
///
/// The bound on `Secondary` is checked when an impl is compiled: an engine
/// whose fields do not match cannot be named as secondary.
pub trait CurveCycleEquipped: Engine {
    /// The engine on the other curve of the cycle.
    type Secondary: Engine<Base = <Self as Engine>::Scalar, Scalar = <Self as Engine>::Base>;
}

/// The secondary engine's scalar field is the primary's base field, and the
/// other way round.
pub proof fn lemma_cycle_fields<E: CurveCycleEquipped>()
    ensures
        <<E::Secondary as Engine>::Scalar as PrimeField>::modulus() == <<E as Engine>::Base as
            PrimeField>::modulus(),
        <<E::Secondary as Engine>::Base as PrimeField>::modulus() == <<E as Engine>::Scalar as
            PrimeField>::modulus(),
        order::<<E::Secondary as Engine>::GE>() == <<E as Engine>::Base as PrimeField>::modulus(),
        order::<<E as Engine>::GE>() == <<E::Secondary as Engine>::Base as PrimeField>::modulus(),
{
}

} // verus!
