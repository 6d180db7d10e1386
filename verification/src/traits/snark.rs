//! What a SNARK for relaxed R1CS has to offer, for one circuit and for a
//! batch of circuits.
//!
//! A session runs from `setup`, which derives a prover key and a verifier
//! key from a commitment key and the shapes, over `prove` to `verify`.
//! The traits state what holds of every implementation: when `setup` has
//! to refuse a key, that `prove` produces nothing for a witness that is not
//! satisfied, and that the digest of a verifier key is fixed by the
//! parameters it was set up with.

use vstd::prelude::*;
use std::sync::Arc;
use crate::digest::{digest_of, parameter_bytes};
use crate::r1cs::{R1CSShape, RelaxedR1CSInstance, RelaxedR1CSWitness};
use crate::supernova::error::SuperNovaError;
use crate::supernova::{first_failure, satisfied_members};
use crate::traits::commitment::CommitmentKey;
use crate::traits::{Engine, PrimeField};

verus! {

/// The floor that a SNARK puts on the length of the commitment key when it
/// has no needs of its own: none. The key then only has to be as long as
/// the shape asks for.
pub fn default_ck_hint<E: Engine>() -> (f: impl Fn(&R1CSShape<E>) -> usize)
    ensures
        forall|shape: &R1CSShape<E>| call_requires(f, (shape,)),
        forall|shape: &R1CSShape<E>, r: usize| call_ensures(f, (shape,), r) ==> r == 0,
{
    |_shape: &R1CSShape<E>| -> (r: usize)
        ensures
            r == 0,
        { 0 }
}

/// The number of generators that a key has to hold for a shape, under a
/// floor: the largest of the number of variables, the number of
/// constraints, and the floor.
pub open spec fn required_key_length<E: Engine>(shape: &R1CSShape<E>, floor: usize) -> nat {
    let by_shape = if shape.variables() >= shape.constraints() {
        shape.variables()
    } else {
        shape.constraints()
    };
    if by_shape >= floor {
        by_shape
    } else {
        floor as nat
    }
}

/// Computes [`required_key_length`].
pub fn key_length_for<E: Engine>(shape: &R1CSShape<E>, floor: usize) -> (r: usize)
    ensures
        r == required_key_length(shape, floor),
{
    let vars = shape.num_vars();
    let cons = shape.num_cons();
    let by_shape = if vars >= cons {
        vars
    } else {
        cons
    };
    if by_shape >= floor {
        by_shape
    } else {
        floor
    }
}

/// Refuses a key that holds fewer generators than the shape and the floor
/// ask for.
pub fn check_key_length<E: Engine>(ck: &CommitmentKey<E::GE>, shape: &R1CSShape<E>, floor: usize) -> (r:
    Result<(), SuperNovaError>)
    ensures
        ck@.len() < required_key_length(shape, floor) ==> r == Err::<(), SuperNovaError>(
            SuperNovaError::MissingCK,
        ),
        ck@.len() >= required_key_length(shape, floor) ==> r == Ok::<(), SuperNovaError>(()),
{
    if ck.length() < key_length_for(shape, floor) {
        Err(SuperNovaError::MissingCK)
    } else {
        Ok(())
    }
}

/// Whether the floor function can give, for the shape, a floor under which
/// a key of `len` generators is long enough.
pub open spec fn floor_allows<E: Engine, H: Fn(&R1CSShape<E>) -> usize>(
    floor: H,
    len: nat,
    shape: &R1CSShape<E>,
) -> bool {
    exists|k: usize| call_ensures(floor, (shape,), k) && len >= required_key_length(shape, k)
}

/// Whether the floor function can give, for the shape, a floor under which
/// a key of `len` generators is too short.
pub open spec fn floor_refuses<E: Engine, H: Fn(&R1CSShape<E>) -> usize>(
    floor: H,
    len: nat,
    shape: &R1CSShape<E>,
) -> bool {
    exists|k: usize| call_ensures(floor, (shape,), k) && len < required_key_length(shape, k)
}

/// Refuses a key that holds fewer generators than one of the shapes of a
/// batch and the floor for that shape ask for. The floor is given as a
/// function of the shape.
pub fn check_key_lengths<E: Engine, H: Fn(&R1CSShape<E>) -> usize>(
    ck: &CommitmentKey<E::GE>,
    shapes: &Vec<&R1CSShape<E>>,
    floor: &H,
) -> (r: Result<(), SuperNovaError>)
    requires
        forall|shape: &R1CSShape<E>| call_requires(*floor, (shape,)),
    ensures
        r is Err ==> r->Err_0 == SuperNovaError::MissingCK && exists|i: int|
            0 <= i < shapes@.len() && floor_refuses(*floor, ck@.len(), #[trigger] shapes@[i]),
        r is Ok ==> forall|i: int|
            0 <= i < shapes@.len() ==> floor_allows(*floor, ck@.len(), #[trigger] shapes@[i]),
{
    let mut i: usize = 0;
    while i < shapes.len()
        invariant
            i <= shapes@.len(),
            forall|shape: &R1CSShape<E>| call_requires(*floor, (shape,)),
            forall|j: int| 0 <= j < i ==> floor_allows(*floor, ck@.len(), #[trigger] shapes@[j]),
        decreases shapes@.len() - i,
    {
        let k = floor(shapes[i]);
        if ck.length() < key_length_for(shapes[i], k) {
            proof {
                assert(floor_refuses(*floor, ck@.len(), shapes@[i as int]));
            }
            return Err(SuperNovaError::MissingCK);
        }
        proof {
            assert(floor_allows(*floor, ck@.len(), shapes@[i as int]));
        }
        i = i + 1;
    }
    Ok(())
}

/// A verifier key that carries a digest: a fingerprint of the parameters
/// that binds a proof to them.
pub trait DigestHelperTrait<E: Engine> {
    /// The digest of the verifier key.
    fn digest(&self) -> (r: E::Scalar)
    ;
}

/// Whether every digest that the verifier key gives is the digest of the
/// given commitment key and shapes.
pub open spec fn carries_digest_of<E: Engine, K: DigestHelperTrait<E>>(
    vk: &K,
    ck: Seq<E::GE>,
    shapes: Seq<&R1CSShape<E>>,
) -> bool {
    forall|d: E::Scalar| call_ensures(K::digest, (vk,), d) ==> d.value() == digest_of(
        parameter_bytes(ck, shapes),
    )
}

/// A SNARK that proves knowledge of a witness for one relaxed R1CS
/// instance.
pub trait RelaxedR1CSSNARKTrait<E: Engine>: Sized {
    /// The key of the prover.
    type ProverKey;

    /// The key of the verifier.
    type VerifierKey;

    /// The floor that this SNARK puts on the length of the commitment key
    /// for a shape. Unless an implementation says otherwise there is
    /// none.
    fn ck_floor(shape: &R1CSShape<E>) -> (r: usize)
        default_ensures
            r == 0,
    {
        let hint = default_ck_hint::<E>();
        hint(shape)
    }

    /// Derives the keys of the prover and of the verifier. A commitment
    /// key that is shorter than the shape and the floor ask for is
    /// refused.
    fn setup(ck: Arc<CommitmentKey<E::GE>>, shape: &R1CSShape<E>) -> (r: Result<
        (Self::ProverKey, Self::VerifierKey),
        SuperNovaError,
    >)
        ensures
            forall|floor: usize|
                call_ensures(Self::ck_floor, (shape,), floor) && ck@.len() < required_key_length(
                    shape,
                    floor,
                ) ==> r is Err && r->Err_0 == SuperNovaError::MissingCK,
    ;

    /// Produces a proof. Nothing is produced for an instance and a witness
    /// that do not satisfy the shape.
    fn prove(
        ck: &CommitmentKey<E::GE>,
        pk: &Self::ProverKey,
        shape: &R1CSShape<E>,
        instance: &RelaxedR1CSInstance<E>,
        witness: &RelaxedR1CSWitness<E>,
    ) -> (r: Result<Self, SuperNovaError>)
        ensures
            !shape.is_satisfied(ck@, instance, witness) ==> r is Err,
    ;

    /// Checks a proof against an instance.
    fn verify(&self, vk: &Self::VerifierKey, instance: &RelaxedR1CSInstance<E>) -> (r: Result<
        (),
        SuperNovaError,
    >)
    ;
}

/// A SNARK that proves knowledge of witnesses for a batch of relaxed R1CS
/// instances at once.
///
/// Where a member of a batch is at fault, it is the first such member that
/// is reported.
pub trait BatchedRelaxedR1CSSNARKTrait<E: Engine>: Sized {
    /// The key of the prover.
    type ProverKey;

    /// The key of the verifier.
    type VerifierKey: DigestHelperTrait<E>;

    /// The floor that this SNARK puts on the length of the commitment key
    /// for a shape. Unless an implementation says otherwise there is
    /// none.
    fn ck_floor(shape: &R1CSShape<E>) -> (r: usize)
        default_ensures
            r == 0,
    {
        let hint = default_ck_hint::<E>();
        hint(shape)
    }

    /// Derives the keys of the prover and of the verifier. A commitment
    /// key that is shorter than one of the shapes and the floor for it ask
    /// for is refused. The digest of the verifier key is the digest of the
    /// commitment key and the shapes, so it is fixed by them.
    fn setup(ck: Arc<CommitmentKey<E::GE>>, shapes: Vec<&R1CSShape<E>>) -> (r: Result<
        (Self::ProverKey, Self::VerifierKey),
        SuperNovaError,
    >)
        ensures
            forall|i: int, floor: usize|
                0 <= i < shapes@.len() && call_ensures(Self::ck_floor, (shapes@[i],), floor)
                    && ck@.len() < required_key_length(shapes@[i], floor) ==> r is Err && r->Err_0
                    == SuperNovaError::MissingCK,
            r matches Ok(keys) ==> carries_digest_of(&keys.1, ck.ck@, shapes@),
    ;

    /// Produces a proof for the batch. Nothing is produced where a member
    /// is not satisfied; where that is reported by position, the position
    /// is that of the first such member.
    fn prove(
        ck: &CommitmentKey<E::GE>,
        pk: &Self::ProverKey,
        shapes: Vec<&R1CSShape<E>>,
        instances: &[RelaxedR1CSInstance<E>],
        witnesses: &[RelaxedR1CSWitness<E>],
    ) -> (r: Result<Self, SuperNovaError>)
        ensures
            instances@.len() != shapes@.len() || witnesses@.len() != shapes@.len() ==> r is Err,
            instances@.len() == shapes@.len() && witnesses@.len() == shapes@.len() ==> {
                let satisfied = satisfied_members(ck@, shapes@, instances@, witnesses@);
                &&& first_failure(satisfied) < satisfied.len() ==> r is Err
                &&& r matches Err(SuperNovaError::UnSatIndex(_, i)) ==> i == first_failure(
                    satisfied,
                )
            },
    ;

    /// Checks a proof against the instances of the batch. A failure that
    /// is reported by position names a member of the batch.
    fn verify(&self, vk: &Self::VerifierKey, instances: &[RelaxedR1CSInstance<E>]) -> (r: Result<
        (),
        SuperNovaError,
    >)
        ensures
            r matches Err(SuperNovaError::UnSatIndex(_, i)) ==> i < instances@.len(),
    ;
}

/// Two runs of `setup` on the same commitment key and the same shapes give
/// verifier keys with the same digest.
pub proof fn lemma_digest_is_stable<E: Engine, S: BatchedRelaxedR1CSSNARKTrait<E>>(
    ck: Arc<CommitmentKey<E::GE>>,
    shapes: Vec<&R1CSShape<E>>,
    first: Result<(S::ProverKey, S::VerifierKey), SuperNovaError>,
    second: Result<(S::ProverKey, S::VerifierKey), SuperNovaError>,
    first_digest: E::Scalar,
    second_digest: E::Scalar,
)
    requires
        call_ensures(S::setup, (ck, shapes), first),
        call_ensures(S::setup, (ck, shapes), second),
        first is Ok,
        second is Ok,
        call_ensures(S::VerifierKey::digest, (&first->Ok_0.1,), first_digest),
        call_ensures(S::VerifierKey::digest, (&second->Ok_0.1,), second_digest),
    ensures
        first_digest.value() == second_digest.value(),
{
}

} // verus!
