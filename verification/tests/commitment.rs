use halo2curves::ff::Field;
use nova_engine::errors::NovaError;
use nova_engine::provider::bn256_grumpkin::{bn256, grumpkin};
use nova_engine::provider::kzg_commitment::{derive_trapdoor, KZGCommitmentEngine};
use nova_engine::provider::pedersen::CommitmentEngine;
use nova_engine::provider::traits::from_label;
use nova_engine::provider::util::msm::{cpu_best_msm, scalar_mul};
use nova_engine::traits::commitment::{commit, CommitmentEngineTrait, CommitmentKey};
use nova_engine::traits::{DlogGroup, PrimeField};
use rand_core::OsRng;
use sha3::digest::{ExtendableOutput, Update, XofReader};

fn random_bn256_scalars(n: usize) -> Vec<bn256::Scalar> {
    (0..n)
        .map(|_| {
            bn256::Scalar::from_bytes(&halo2curves::bn256::Fr::random(OsRng).to_bytes()).unwrap()
        })
        .collect()
}

fn random_grumpkin_scalars(n: usize) -> Vec<grumpkin::Scalar> {
    (0..n)
        .map(|_| {
            grumpkin::Scalar::from_bytes(&halo2curves::grumpkin::Fr::random(OsRng).to_bytes())
                .unwrap()
        })
        .collect()
}

#[test]
fn pedersen_setup_derives_the_generators_of_the_label() {
    let ck = <CommitmentEngine<bn256::Point> as CommitmentEngineTrait<bn256::Point>>::setup(
        b"ck",
        9,
    );
    assert_eq!(ck.length(), 9);
    assert_eq!(ck.ck, from_label::<bn256::Point>(b"ck", 9));
    let empty = <CommitmentEngine<bn256::Point> as CommitmentEngineTrait<bn256::Point>>::setup(
        b"ck",
        0,
    );
    assert_eq!(empty.length(), 0);
}

#[test]
fn commitments_add_up_on_bn256() {
    let n = 6;
    let ck = <CommitmentEngine<bn256::Point> as CommitmentEngineTrait<bn256::Point>>::setup(
        b"homomorphism",
        n,
    );
    let a = random_bn256_scalars(n);
    let b = random_bn256_scalars(n);
    let sum = a.iter().zip(b.iter()).map(|(x, y)| x.add(y)).collect::<Vec<_>>();
    let comm_a = commit(&ck, &a).unwrap();
    let comm_b = commit(&ck, &b).unwrap();
    let comm_sum = commit(&ck, &sum).unwrap();
    assert_eq!(comm_a.add(&comm_b).to_bytes(), comm_sum.to_bytes());
    assert_ne!(comm_a.to_bytes(), comm_sum.to_bytes());
}

#[test]
fn commitments_add_up_on_grumpkin() {
    let n = 4;
    let ck = <CommitmentEngine<grumpkin::Point> as CommitmentEngineTrait<grumpkin::Point>>::setup(
        b"homomorphism",
        n + 2,
    );
    let a = random_grumpkin_scalars(n);
    let b = random_grumpkin_scalars(n);
    let sum = a.iter().zip(b.iter()).map(|(x, y)| x.add(y)).collect::<Vec<_>>();
    let comm_a =
        <CommitmentEngine<grumpkin::Point> as CommitmentEngineTrait<grumpkin::Point>>::commit(
            &ck, &a,
        )
        .unwrap();
    let comm_b = commit(&ck, &b).unwrap();
    let comm_sum = commit(&ck, &sum).unwrap();
    assert_eq!(comm_a.add(&comm_b).to_bytes(), comm_sum.to_bytes());
}

#[test]
fn commit_uses_the_first_generators_of_the_key() {
    let ck = CommitmentKey::from_generators(from_label::<bn256::Point>(b"first", 5));
    let v = random_bn256_scalars(3);
    let c = commit(&ck, &v).unwrap();
    let direct = cpu_best_msm(&ck.ck[..3], &v).unwrap();
    assert_eq!(c.to_bytes(), direct.to_bytes());
    let nothing: Vec<bn256::Scalar> = vec![];
    assert_eq!(commit(&ck, &nothing).unwrap().to_bytes(), bn256::Point::identity().to_bytes());
}

#[test]
fn commit_refuses_a_short_key() {
    let ck = CommitmentKey::from_generators(from_label::<bn256::Point>(b"short", 2));
    let v = random_bn256_scalars(3);
    assert!(matches!(commit(&ck, &v), Err(NovaError::InvalidCommitmentKeyLength)));
    assert!(commit(&ck, &v[..2]).is_ok());
    assert!(matches!(
        <KZGCommitmentEngine<bn256::Point> as CommitmentEngineTrait<bn256::Point>>::commit(
            &ck, &v
        ),
        Err(NovaError::InvalidCommitmentKeyLength)
    ));
}

#[test]
fn kzg_setup_gives_the_powers_of_the_trapdoor() {
    let ck = <KZGCommitmentEngine<bn256::Point> as CommitmentEngineTrait<bn256::Point>>::setup(
        b"srs",
        4,
    );
    assert_eq!(ck.length(), 4);
    let tau = derive_trapdoor::<bn256::Scalar>(b"srs");
    assert_eq!(ck.ck[0], bn256::Point::generator());
    for i in 0..3 {
        assert_eq!(ck.ck[i + 1], scalar_mul(&ck.ck[i], &tau));
    }
    // the commitment to the coefficients 1, 1 is the generator plus its first power
    let one = {
        let mut b = [0u8; 32];
        b[0] = 1;
        bn256::Scalar::from_bytes(&b).unwrap()
    };
    let c = <KZGCommitmentEngine<bn256::Point> as CommitmentEngineTrait<bn256::Point>>::commit(
        &ck,
        &[one, one],
    )
    .unwrap();
    assert_eq!(c.to_bytes(), ck.ck[0].add(&ck.ck[1]).to_bytes());
}

#[test]
fn the_trapdoor_is_read_from_the_stream_of_the_label() {
    let tau = derive_trapdoor::<bn256::Scalar>(b"srs");
    let mut shake = sha3::Shake256::default();
    shake.update(b"srs");
    let mut expected = [0u8; 32];
    shake.finalize_xof().read(&mut expected[..31]);
    assert_eq!(tau.to_bytes(), expected);
    assert_ne!(derive_trapdoor::<bn256::Scalar>(b"srt").to_bytes(), expected);
}
