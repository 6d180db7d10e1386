use nova_engine::digest::{digest_of_bytes, map_to_field, parameters_digest, NUM_HASH_BITS};
use nova_engine::errors::NovaError;
use nova_engine::provider::bn256_grumpkin::{bn256, grumpkin};
use nova_engine::provider::traits::from_label;
use nova_engine::provider::{Bn256EngineIPA, Bn256EngineKZG, Bn256EngineZM, GrumpkinEngine};
use nova_engine::r1cs::{R1CSShape, RelaxedR1CSInstance, RelaxedR1CSWitness, SparseMatrix};
use nova_engine::supernova::check_batch;
use nova_engine::supernova::error::SuperNovaError;
use nova_engine::traits::commitment::{commit, CommitmentEngineTrait, CommitmentKey};
use nova_engine::traits::snark::{
    check_key_length, check_key_lengths, default_ck_hint, key_length_for,
    BatchedRelaxedR1CSSNARKTrait, DigestHelperTrait, RelaxedR1CSSNARKTrait,
};
use nova_engine::traits::{CurveCycleEquipped, DlogGroup, Engine, PrimeField};
use sha3::Digest;
use std::sync::Arc;

type E = Bn256EngineIPA;

fn scalar(n: u64) -> bn256::Scalar {
    let mut bytes = [0u8; 32];
    bytes[..8].copy_from_slice(&n.to_le_bytes());
    bn256::Scalar::from_bytes(&bytes).unwrap()
}

fn key(n: usize) -> CommitmentKey<bn256::Point> {
    CommitmentKey::from_generators(from_label::<bn256::Point>(b"snark", n))
}

/// One constraint over the variables `x` and `y`: `x * x = y`.
fn square_shape() -> R1CSShape<E> {
    R1CSShape::new(
        1,
        2,
        0,
        vec![(0, 0, scalar(1))],
        vec![(0, 0, scalar(1))],
        vec![(0, 1, scalar(1))],
    )
    .unwrap()
}

/// Two constraints over `x`, `y` and one public input `out`:
/// `x * y = out` and `(x + y) * 1 = 5`, the one spelled with the constant column.
fn product_shape() -> R1CSShape<E> {
    R1CSShape::new(
        2,
        2,
        1,
        vec![(0, 0, scalar(1)), (1, 0, scalar(1)), (1, 1, scalar(1))],
        vec![(0, 1, scalar(1)), (1, 2, scalar(1))],
        vec![(0, 3, scalar(1)), (1, 2, scalar(5))],
    )
    .unwrap()
}

fn pair(
    ck: &CommitmentKey<bn256::Point>,
    w: Vec<bn256::Scalar>,
    e: Vec<bn256::Scalar>,
    x: Vec<bn256::Scalar>,
    u: bn256::Scalar,
) -> (RelaxedR1CSInstance<E>, RelaxedR1CSWitness<E>) {
    let comm_w = commit(ck, &w).unwrap();
    let comm_e = commit(ck, &e).unwrap();
    (RelaxedR1CSInstance { comm_w, comm_e, x, u }, RelaxedR1CSWitness { w, e })
}

fn square_pair(
    ck: &CommitmentKey<bn256::Point>,
    x: u64,
    y: u64,
) -> (RelaxedR1CSInstance<E>, RelaxedR1CSWitness<E>) {
    pair(ck, vec![scalar(x), scalar(y)], vec![scalar(0)], vec![], scalar(1))
}

struct PlainKey {
    digest: bn256::Scalar,
}

impl DigestHelperTrait<E> for PlainKey {
    fn digest(&self) -> bn256::Scalar {
        self.digest
    }
}

/// A proof system that hands the witness over: enough to run the interface.
struct Plain {
    witness_w: Vec<bn256::Scalar>,
}

impl RelaxedR1CSSNARKTrait<E> for Plain {
    type ProverKey = ();
    type VerifierKey = PlainKey;

    fn setup(
        ck: Arc<CommitmentKey<bn256::Point>>,
        shape: &R1CSShape<E>,
    ) -> Result<((), PlainKey), SuperNovaError> {
        check_key_length(&ck, shape, Self::ck_floor(shape))?;
        Ok(((), PlainKey { digest: parameters_digest::<E>(&ck, &vec![shape]) }))
    }

    fn prove(
        ck: &CommitmentKey<bn256::Point>,
        _pk: &(),
        shape: &R1CSShape<E>,
        instance: &RelaxedR1CSInstance<E>,
        witness: &RelaxedR1CSWitness<E>,
    ) -> Result<Self, SuperNovaError> {
        shape.is_sat_relaxed(ck, instance, witness)?;
        Ok(Plain { witness_w: witness.w.clone() })
    }

    fn verify(
        &self,
        _vk: &PlainKey,
        instance: &RelaxedR1CSInstance<E>,
    ) -> Result<(), SuperNovaError> {
        let ck = key(self.witness_w.len());
        let again = commit(&ck, &self.witness_w)?;
        if again.comm.equals(&instance.comm_w.comm) {
            Ok(())
        } else {
            Err(SuperNovaError::NovaError(NovaError::ProofVerifyError))
        }
    }
}

struct Greedy;

impl RelaxedR1CSSNARKTrait<E> for Greedy {
    type ProverKey = ();
    type VerifierKey = ();

    fn ck_floor(shape: &R1CSShape<E>) -> usize {
        2 * shape.num_cons() + 7
    }

    fn setup(
        ck: Arc<CommitmentKey<bn256::Point>>,
        shape: &R1CSShape<E>,
    ) -> Result<((), ()), SuperNovaError> {
        check_key_length(&ck, shape, Self::ck_floor(shape))?;
        Ok(((), ()))
    }

    fn prove(
        _ck: &CommitmentKey<bn256::Point>,
        _pk: &(),
        _shape: &R1CSShape<E>,
        _instance: &RelaxedR1CSInstance<E>,
        _witness: &RelaxedR1CSWitness<E>,
    ) -> Result<Self, SuperNovaError> {
        Err(SuperNovaError::NovaError(NovaError::UnSat))
    }

    fn verify(&self, _vk: &(), _instance: &RelaxedR1CSInstance<E>) -> Result<(), SuperNovaError> {
        Err(SuperNovaError::NovaError(NovaError::ProofVerifyError))
    }
}

struct PlainBatch;

impl BatchedRelaxedR1CSSNARKTrait<E> for PlainBatch {
    type ProverKey = ();
    type VerifierKey = PlainKey;

    fn setup(
        ck: Arc<CommitmentKey<bn256::Point>>,
        shapes: Vec<&R1CSShape<E>>,
    ) -> Result<((), PlainKey), SuperNovaError> {
        check_key_lengths(&ck, &shapes, &Self::ck_floor)?;
        Ok(((), PlainKey { digest: parameters_digest::<E>(&ck, &shapes) }))
    }

    fn prove(
        ck: &CommitmentKey<bn256::Point>,
        _pk: &(),
        shapes: Vec<&R1CSShape<E>>,
        instances: &[RelaxedR1CSInstance<E>],
        witnesses: &[RelaxedR1CSWitness<E>],
    ) -> Result<Self, SuperNovaError> {
        let names = vec!["member"; shapes.len()];
        check_batch(&names, ck, &shapes, instances, witnesses)?;
        Ok(PlainBatch)
    }

    fn verify(
        &self,
        _vk: &PlainKey,
        _instances: &[RelaxedR1CSInstance<E>],
    ) -> Result<(), SuperNovaError> {
        Ok(())
    }
}

#[test]
fn the_default_floor_is_zero() {
    let hint = default_ck_hint::<E>();
    assert_eq!(hint(&square_shape()), 0);
    assert_eq!(hint(&product_shape()), 0);
    let hint = default_ck_hint::<GrumpkinEngine>();
    let shape = R1CSShape::<GrumpkinEngine>::new(3, 1, 1, vec![], vec![], vec![]).unwrap();
    assert_eq!(hint(&shape), 0);
    assert_eq!(<Plain as RelaxedR1CSSNARKTrait<E>>::ck_floor(&square_shape()), 0);
    assert_eq!(<PlainBatch as BatchedRelaxedR1CSSNARKTrait<E>>::ck_floor(&product_shape()), 0);
}

#[test]
fn a_floor_can_be_overridden() {
    assert_eq!(<Greedy as RelaxedR1CSSNARKTrait<E>>::ck_floor(&square_shape()), 9);
    assert_eq!(<Greedy as RelaxedR1CSSNARKTrait<E>>::ck_floor(&product_shape()), 11);
    assert!(matches!(Greedy::setup(Arc::new(key(8)), &square_shape()), Err(SuperNovaError::MissingCK)));
    assert!(Greedy::setup(Arc::new(key(9)), &square_shape()).is_ok());
    assert!(Plain::setup(Arc::new(key(2)), &square_shape()).is_ok());
}

#[test]
fn the_key_has_to_cover_variables_constraints_and_floor() {
    let shape = R1CSShape::<E>::new(5, 3, 0, vec![], vec![], vec![]).unwrap();
    assert_eq!(key_length_for(&shape, 0), 5);
    assert_eq!(key_length_for(&shape, 4), 5);
    assert_eq!(key_length_for(&shape, 6), 6);
    let wide = R1CSShape::<E>::new(3, 8, 0, vec![], vec![], vec![]).unwrap();
    assert_eq!(key_length_for(&wide, 0), 8);
    assert_eq!(check_key_length(&key(4), &shape, 0), Err(SuperNovaError::MissingCK));
    assert_eq!(check_key_length(&key(5), &shape, 0), Ok(()));
    assert_eq!(check_key_length(&key(5), &shape, 6), Err(SuperNovaError::MissingCK));
    assert_eq!(check_key_length(&key(0), &shape, 0), Err(SuperNovaError::MissingCK));
    let none = R1CSShape::<E>::new(0, 0, 0, vec![], vec![], vec![]).unwrap();
    assert_eq!(check_key_length(&key(0), &none, 0), Ok(()));
}

#[test]
fn the_key_has_to_cover_every_shape_of_a_batch() {
    let small = square_shape();
    let large = R1CSShape::<E>::new(5, 3, 0, vec![], vec![], vec![]).unwrap();
    let hint = default_ck_hint::<E>();
    assert_eq!(check_key_lengths(&key(5), &vec![&small, &large], &hint), Ok(()));
    assert_eq!(
        check_key_lengths(&key(4), &vec![&small, &large], &hint),
        Err(SuperNovaError::MissingCK)
    );
    assert_eq!(check_key_lengths(&key(4), &vec![&small], &hint), Ok(()));
    assert_eq!(check_key_lengths(&key(0), &vec![], &hint), Ok(()));
    let floor = |shape: &R1CSShape<E>| shape.num_vars() + 4;
    assert_eq!(
        check_key_lengths(&key(5), &vec![&small, &large], &floor),
        Err(SuperNovaError::MissingCK)
    );
    assert_eq!(check_key_lengths(&key(7), &vec![&small, &large], &floor), Ok(()));
    assert!(matches!(
        PlainBatch::setup(Arc::new(key(4)), vec![&small, &large]),
        Err(SuperNovaError::MissingCK)
    ));
}

#[test]
fn setup_twice_gives_the_same_digest() {
    let shape = product_shape();
    let ck = Arc::new(key(3));
    let (_, first) = PlainBatch::setup(ck.clone(), vec![&shape, &square_shape()]).unwrap();
    let (_, second) = PlainBatch::setup(ck.clone(), vec![&shape, &square_shape()]).unwrap();
    assert_eq!(first.digest(), second.digest());
    // a key derived anew from the same label is the same key
    let (_, third) = PlainBatch::setup(Arc::new(key(3)), vec![&product_shape(), &square_shape()])
        .unwrap();
    assert_eq!(first.digest(), third.digest());
    // other parameters, other digest
    let (_, swapped) = PlainBatch::setup(ck.clone(), vec![&square_shape(), &shape]).unwrap();
    assert_ne!(first.digest(), swapped.digest());
    let (_, longer) = PlainBatch::setup(Arc::new(key(4)), vec![&shape, &square_shape()]).unwrap();
    assert_ne!(first.digest(), longer.digest());
    let (_, single) = Plain::setup(ck, &shape).unwrap();
    assert_eq!(single.digest(), parameters_digest::<E>(&key(3), &vec![&product_shape()]));
}

#[test]
fn a_digest_is_the_low_bits_of_the_hash() {
    assert_eq!(NUM_HASH_BITS, 250);
    // SHA3-256 of "abc"
    let hash: [u8; 32] = [
        0x3a, 0x98, 0x5d, 0xa7, 0x4f, 0xe2, 0x25, 0xb2, 0x04, 0x5c, 0x17, 0x2d, 0x6b, 0xd3, 0x90,
        0xbd, 0x85, 0x5f, 0x08, 0x6e, 0x3e, 0x9d, 0x52, 0x5b, 0x46, 0xbf, 0xe2, 0x45, 0x11, 0x43,
        0x15, 0x32,
    ];
    let mut expected = hash;
    expected[31] = 0x02;
    assert_eq!(digest_of_bytes::<bn256::Scalar>(b"abc").to_bytes(), expected);
    assert_eq!(digest_of_bytes::<grumpkin::Scalar>(b"abc").to_bytes(), expected);
    assert_eq!(map_to_field::<bn256::Scalar>(&hash).to_bytes(), expected);
    let mut top = [0xffu8; 32];
    let digest = map_to_field::<bn256::Scalar>(&top).to_bytes();
    top[31] = 0x03;
    assert_eq!(digest, top);
    assert_eq!(map_to_field::<bn256::Scalar>(&[0u8; 32]).to_bytes(), [0u8; 32]);
}

#[test]
fn the_digest_of_parameters_hashes_their_layout() {
    let ck = key(2);
    let shape = square_shape();
    let mut bytes: Vec<u8> = vec![];
    bytes.extend_from_slice(&2u64.to_le_bytes());
    bytes.extend_from_slice(&ck.ck[0].to_bytes());
    bytes.extend_from_slice(&ck.ck[1].to_bytes());
    bytes.extend_from_slice(&1u64.to_le_bytes());
    // the shape: constraints, variables, inputs
    bytes.extend_from_slice(&1u64.to_le_bytes());
    bytes.extend_from_slice(&2u64.to_le_bytes());
    bytes.extend_from_slice(&0u64.to_le_bytes());
    for column in [0u64, 0, 1] {
        bytes.extend_from_slice(&1u64.to_le_bytes());
        bytes.extend_from_slice(&0u64.to_le_bytes());
        bytes.extend_from_slice(&column.to_le_bytes());
        bytes.extend_from_slice(&scalar(1).to_bytes());
    }
    let mut laid_out: Vec<u8> = vec![];
    shape.write_to(&mut laid_out);
    assert_eq!(&bytes[80..], &laid_out[..]);
    let mut expected: [u8; 32] = sha3::Sha3_256::digest(&bytes).into();
    expected[31] &= 0x03;
    assert_eq!(parameters_digest::<E>(&ck, &vec![&shape]).to_bytes(), expected);
}

#[test]
fn shapes_refuse_entries_outside_the_matrices() {
    assert!(R1CSShape::<E>::new(1, 2, 0, vec![(1, 0, scalar(1))], vec![], vec![]).is_err());
    assert!(matches!(
        R1CSShape::<E>::new(1, 2, 0, vec![], vec![(0, 3, scalar(1))], vec![]),
        Err(NovaError::InvalidIndex)
    ));
    assert!(R1CSShape::<E>::new(1, 2, 0, vec![], vec![(0, 2, scalar(1))], vec![]).is_ok());
    assert!(R1CSShape::<E>::new(1, 2, 1, vec![], vec![], vec![(0, 3, scalar(1))]).is_ok());
    assert!(matches!(
        R1CSShape::<E>::new(1, usize::MAX, 0, vec![], vec![], vec![]),
        Err(NovaError::InvalidIndex)
    ));
    assert!(matches!(
        R1CSShape::<E>::new(1, usize::MAX - 1, 1, vec![], vec![], vec![]),
        Err(NovaError::InvalidIndex)
    ));
    let shape = product_shape();
    assert_eq!((shape.num_cons(), shape.num_vars(), shape.num_io()), (2, 2, 1));
}

#[test]
fn a_matrix_multiplies_a_vector() {
    // [[1, 2, 0], [0, 0, 3]] with one entry given in two parts
    let m = SparseMatrix::new(
        2,
        3,
        vec![(0, 0, scalar(1)), (0, 1, scalar(1)), (1, 2, scalar(3)), (0, 1, scalar(1))],
    )
    .unwrap();
    let product = m.multiply_vec(&[scalar(5), scalar(7), scalar(11)]).unwrap();
    assert_eq!(product, vec![scalar(19), scalar(33)]);
    assert!(matches!(m.multiply_vec(&[scalar(5), scalar(7)]), Err(NovaError::InvalidInputLength)));
    assert!(matches!(
        SparseMatrix::new(2, 3, vec![(2, 0, scalar(1))]),
        Err(NovaError::InvalidIndex)
    ));
    let empty = SparseMatrix::<bn256::Scalar>::new(2, 0, vec![]).unwrap();
    assert_eq!(empty.multiply_vec(&[]).unwrap(), vec![scalar(0), scalar(0)]);
}

#[test]
fn satisfied_and_unsatisfied_assignments() {
    let ck = key(2);
    let shape = square_shape();
    let (instance, witness) = square_pair(&ck, 3, 9);
    assert_eq!(shape.is_sat_relaxed(&ck, &instance, &witness), Ok(()));
    let (instance, witness) = square_pair(&ck, 3, 10);
    assert_eq!(shape.is_sat_relaxed(&ck, &instance, &witness), Err(NovaError::UnSat));
    // relaxed: 3 * 3 = 2 * 4 + 1
    let (instance, witness) = pair(&ck, vec![scalar(3), scalar(4)], vec![scalar(1)], vec![], scalar(2));
    assert_eq!(shape.is_sat_relaxed(&ck, &instance, &witness), Ok(()));
    // a commitment to another witness
    let (mut instance, witness) = square_pair(&ck, 3, 9);
    instance.comm_w = commit(&ck, &[scalar(3), scalar(8)]).unwrap();
    assert_eq!(shape.is_sat_relaxed(&ck, &instance, &witness), Err(NovaError::UnSat));
    let (mut instance, witness) = square_pair(&ck, 3, 9);
    instance.comm_e = commit(&ck, &[scalar(1)]).unwrap();
    assert_eq!(shape.is_sat_relaxed(&ck, &instance, &witness), Err(NovaError::UnSat));
}

#[test]
fn a_witness_commits_to_its_two_vectors() {
    let ck = key(2);
    let witness = RelaxedR1CSWitness::<E> { w: vec![scalar(3), scalar(9)], e: vec![scalar(5)] };
    let (comm_w, comm_e) = witness.commit(&ck).unwrap();
    assert_eq!(comm_w.to_bytes(), commit(&ck, &[scalar(3), scalar(9)]).unwrap().to_bytes());
    assert_eq!(comm_e.to_bytes(), commit(&ck, &[scalar(5)]).unwrap().to_bytes());
    assert_ne!(comm_w.to_bytes(), comm_e.to_bytes());
    assert!(matches!(witness.commit(&key(1)), Err(NovaError::InvalidCommitmentKeyLength)));
    let long = RelaxedR1CSWitness::<E> { w: vec![], e: vec![scalar(5), scalar(5), scalar(5)] };
    assert!(matches!(long.commit(&ck), Err(NovaError::InvalidCommitmentKeyLength)));
}

#[test]
fn public_inputs_and_the_constant_column() {
    let ck = key(2);
    let shape = product_shape();
    let (instance, witness) =
        pair(&ck, vec![scalar(2), scalar(3)], vec![scalar(0), scalar(0)], vec![scalar(6)], scalar(1));
    assert_eq!(shape.is_sat_relaxed(&ck, &instance, &witness), Ok(()));
    let (instance, witness) =
        pair(&ck, vec![scalar(2), scalar(3)], vec![scalar(0), scalar(0)], vec![scalar(7)], scalar(1));
    assert_eq!(shape.is_sat_relaxed(&ck, &instance, &witness), Err(NovaError::UnSat));
    let (instance, witness) =
        pair(&ck, vec![scalar(1), scalar(6)], vec![scalar(0), scalar(0)], vec![scalar(6)], scalar(1));
    assert_eq!(shape.is_sat_relaxed(&ck, &instance, &witness), Err(NovaError::UnSat));
}

#[test]
fn lengths_are_checked_before_the_key_and_the_constraints() {
    let ck = key(2);
    let shape = square_shape();
    let (instance, witness) = pair(&ck, vec![scalar(3)], vec![scalar(0)], vec![], scalar(1));
    assert_eq!(shape.is_sat_relaxed(&ck, &instance, &witness), Err(NovaError::InvalidWitnessLength));
    let (instance, witness) =
        pair(&ck, vec![scalar(3), scalar(9)], vec![scalar(0), scalar(0)], vec![], scalar(1));
    assert_eq!(shape.is_sat_relaxed(&ck, &instance, &witness), Err(NovaError::InvalidWitnessLength));
    let (instance, witness) =
        pair(&ck, vec![scalar(3), scalar(9)], vec![scalar(0)], vec![scalar(1)], scalar(1));
    assert_eq!(shape.is_sat_relaxed(&ck, &instance, &witness), Err(NovaError::InvalidWitnessLength));
    let (instance, witness) = square_pair(&ck, 3, 9);
    assert_eq!(
        shape.is_sat_relaxed(&key(1), &instance, &witness),
        Err(NovaError::InvalidCommitmentKeyLength)
    );
    let (instance, witness) = pair(&ck, vec![scalar(3)], vec![scalar(0)], vec![], scalar(1));
    assert_eq!(
        shape.is_sat_relaxed(&key(1), &instance, &witness),
        Err(NovaError::InvalidWitnessLength)
    );
}

/// The members `x * x = y` for `x` from 2 on, with the commitments of the
/// satisfying witnesses; a member listed in `faults` gets a witness that is
/// off by one.
struct Members {
    commitments: Vec<(
        nova_engine::traits::commitment::Commitment<bn256::Point>,
        nova_engine::traits::commitment::Commitment<bn256::Point>,
    )>,
}

impl Members {
    fn new(ck: &CommitmentKey<bn256::Point>, n: u64) -> Self {
        let comm_e = commit(ck, &[scalar(0)]).unwrap();
        let commitments = (0..n)
            .map(|i| (commit(ck, &[scalar(i + 2), scalar((i + 2) * (i + 2))]).unwrap(), comm_e))
            .collect();
        Members { commitments }
    }

    fn batch(&self, faults: &[usize]) -> (Vec<RelaxedR1CSInstance<E>>, Vec<RelaxedR1CSWitness<E>>) {
        let mut instances = vec![];
        let mut witnesses = vec![];
        for (i, (comm_w, comm_e)) in self.commitments.iter().enumerate() {
            let x = i as u64 + 2;
            let y = if faults.contains(&i) { x * x + 1 } else { x * x };
            instances.push(RelaxedR1CSInstance {
                comm_w: *comm_w,
                comm_e: *comm_e,
                x: vec![],
                u: scalar(1),
            });
            witnesses.push(RelaxedR1CSWitness { w: vec![scalar(x), scalar(y)], e: vec![scalar(0)] });
        }
        (instances, witnesses)
    }
}

#[test]
fn a_fault_in_a_batch_is_located() {
    let ck = key(2);
    let shape = square_shape();
    let shapes = vec![&shape, &shape, &shape];
    let names = ["circuit_0", "circuit_1", "circuit_2"];
    let members = Members::new(&ck, 3);
    for i in 0..3 {
        let (instances, witnesses) = members.batch(&[i]);
        assert_eq!(
            check_batch(&names, &ck, &shapes, &instances, &witnesses),
            Err(SuperNovaError::UnSatIndex(names[i], i))
        );
    }
    let (instances, witnesses) = members.batch(&[1]);
    assert_eq!(
        check_batch(&names, &ck, &shapes, &instances, &witnesses),
        Err(SuperNovaError::UnSatIndex("circuit_1", 1))
    );
}

#[test]
fn a_batch_without_fault_passes() {
    let ck = key(2);
    let shape = square_shape();
    let shapes = vec![&shape, &shape];
    let names = ["circuit_0", "circuit_1"];
    let members = Members::new(&ck, 2);
    let (instances, witnesses) = members.batch(&[]);
    assert_eq!(check_batch(&names, &ck, &shapes, &instances, &witnesses), Ok(()));
    assert!(PlainBatch::prove(&ck, &(), shapes, &instances, &witnesses).is_ok());
}

#[test]
fn a_batched_prover_reports_the_faulty_member() {
    let ck = key(2);
    let shape = square_shape();
    let shapes = vec![&shape, &shape, &shape];
    let members = Members::new(&ck, 3);
    let (instances, witnesses) = members.batch(&[1, 2]);
    assert!(matches!(
        PlainBatch::prove(&ck, &(), shapes, &instances, &witnesses),
        Err(SuperNovaError::UnSatIndex("member", 1))
    ));
}

#[test]
fn the_first_of_several_faults_is_reported() {
    let ck = key(2);
    let shape = square_shape();
    let shapes = vec![&shape, &shape, &shape, &shape];
    let names = ["circuit_0", "circuit_1", "circuit_2", "circuit_3"];
    let members = Members::new(&ck, 4);
    let (instances, witnesses) = members.batch(&[3, 1]);
    assert_eq!(
        check_batch(&names, &ck, &shapes, &instances, &witnesses),
        Err(SuperNovaError::UnSatIndex("circuit_1", 1))
    );
    // a member of the wrong length is a fault of that member
    let (instances, mut witnesses) = members.batch(&[3]);
    witnesses[0].e.push(scalar(0));
    assert_eq!(
        check_batch(&names, &ck, &shapes, &instances, &witnesses),
        Err(SuperNovaError::UnSatIndex("circuit_0", 0))
    );
}

#[test]
fn a_batch_has_to_run_in_parallel() {
    let ck = key(2);
    let shape = square_shape();
    let shapes = vec![&shape, &shape, &shape];
    let names = ["circuit_0", "circuit_1", "circuit_2"];
    let members = Members::new(&ck, 3);
    let (instances, witnesses) = members.batch(&[0]);
    let mismatch = Err(SuperNovaError::NovaError(NovaError::InvalidInputLength));
    assert_eq!(check_batch(&names[..2], &ck, &shapes, &instances, &witnesses), mismatch);
    assert_eq!(check_batch(&names, &ck, &shapes, &instances[..2], &witnesses), mismatch);
    assert_eq!(check_batch(&names, &ck, &shapes, &instances, &witnesses[1..]), mismatch);
    assert_eq!(check_batch::<E>(&[], &ck, &vec![], &[], &[]), Ok(()));
}

#[test]
fn a_session_runs_from_setup_to_verify() {
    let ck = Arc::new(key(2));
    let shape = square_shape();
    let (pk, vk) = Plain::setup(ck.clone(), &shape).unwrap();
    let (instance, witness) = square_pair(&ck, 4, 16);
    let proof = Plain::prove(&ck, &pk, &shape, &instance, &witness).unwrap();
    assert_eq!(proof.verify(&vk, &instance), Ok(()));
    let (other, _) = square_pair(&ck, 5, 25);
    assert_eq!(
        proof.verify(&vk, &other),
        Err(SuperNovaError::NovaError(NovaError::ProofVerifyError))
    );
    let (instance, witness) = square_pair(&ck, 4, 17);
    assert!(matches!(
        Plain::prove(&ck, &pk, &shape, &instance, &witness),
        Err(SuperNovaError::NovaError(NovaError::UnSat))
    ));
    assert!(matches!(Plain::setup(Arc::new(key(1)), &shape), Err(SuperNovaError::MissingCK)));
}

#[test]
fn failures_have_names_and_wrap() {
    assert_eq!(SuperNovaError::from(NovaError::UnSat), SuperNovaError::NovaError(NovaError::UnSat));
    assert_eq!(SuperNovaError::NovaError(NovaError::UnSat).message(), "NovaError");
    assert_eq!(SuperNovaError::MissingCK.message(), "MissingCK");
    assert_eq!(SuperNovaError::UnSatIndex("circuit_1", 1).message(), "UnSatIndex");
    assert_ne!(SuperNovaError::UnSatIndex("circuit_1", 1), SuperNovaError::UnSatIndex("circuit_1", 2));
    assert_ne!(SuperNovaError::UnSatIndex("circuit_1", 1), SuperNovaError::UnSatIndex("circuit_2", 1));
    assert_eq!(NovaError::InvalidInputLength.message(), "InvalidInputLength");
    assert_eq!(NovaError::InvalidCommitmentKeyLength.message(), "InvalidCommitmentKeyLength");
    assert_eq!(NovaError::InvalidWitnessLength.message(), "InvalidWitnessLength");
    assert_eq!(NovaError::InvalidIndex.message(), "InvalidIndex");
    assert_eq!(NovaError::UnSat.message(), "UnSat");
    assert_eq!(NovaError::ProofVerifyError.message(), "ProofVerifyError");
}

fn secondary_setup<P: CurveCycleEquipped>(n: usize) -> usize {
    let ck = <<P::Secondary as Engine>::CE as CommitmentEngineTrait<
        <P::Secondary as Engine>::GE,
    >>::setup(b"secondary", n);
    ck.length()
}

fn scalar_of_secondary_is_base_of_primary<P: CurveCycleEquipped>(
    bytes: &[u8; 32],
) -> Option<<P as Engine>::Base> {
    // this line compiles only because the two types are one
    <<P::Secondary as Engine>::Scalar as PrimeField>::from_bytes(bytes)
}

#[test]
fn every_engine_on_bn256_is_paired_with_grumpkin() {
    assert_eq!(secondary_setup::<Bn256EngineIPA>(2), 2);
    assert_eq!(secondary_setup::<Bn256EngineKZG>(1), 1);
    assert_eq!(secondary_setup::<Bn256EngineZM>(0), 0);
    let mut bytes = [0u8; 32];
    bytes[0] = 9;
    let x: bn256::Base = scalar_of_secondary_is_base_of_primary::<Bn256EngineIPA>(&bytes).unwrap();
    assert_eq!(x.to_bytes(), bytes);
    assert!(scalar_of_secondary_is_base_of_primary::<Bn256EngineKZG>(&[0xff; 32]).is_none());
    assert!(scalar_of_secondary_is_base_of_primary::<Bn256EngineZM>(&bytes).is_some());
    let g: <GrumpkinEngine as Engine>::GE = grumpkin::Point::generator();
    let h: <<Bn256EngineZM as CurveCycleEquipped>::Secondary as Engine>::GE = g;
    assert_eq!(h, grumpkin::Point::generator());
    assert_eq!(Bn256EngineIPA, Bn256EngineIPA);
}

#[test]
fn engines_differ_in_their_commitment_keys() {
    let pedersen =
        <<Bn256EngineIPA as Engine>::CE as CommitmentEngineTrait<bn256::Point>>::setup(b"label", 2);
    let zm =
        <<Bn256EngineZM as Engine>::CE as CommitmentEngineTrait<bn256::Point>>::setup(b"label", 2);
    let kzg =
        <<Bn256EngineKZG as Engine>::CE as CommitmentEngineTrait<bn256::Point>>::setup(b"label", 2);
    assert_eq!(zm.ck, kzg.ck);
    assert_ne!(pedersen.ck, zm.ck);
    assert_eq!(zm.ck[0], bn256::Point::generator());
}
