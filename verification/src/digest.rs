//! Digests: fingerprints of parameters, as elements of a field.
//!
//! The parameters are laid out as bytes, the bytes are hashed with
//! SHA3-256, and the low 250 bits of the hash are read as a number. That
//! number is below the modulus of every field here, so the digest can be
//! used inside a circuit.

use vstd::prelude::*;
use vstd::arithmetic::div_mod::lemma_fundamental_div_mod_converse;
use vstd::arithmetic::power2::{lemma2_to64, lemma_pow2_adds, lemma_pow2_pos, pow2};
use crate::little_endian::{
    append_bytes, append_count, le_bytes, le_value, lemma_le_value_bound, lemma_le_value_single,
    lemma_le_value_split,
};
use crate::provider::hashing::{sha3_256, sha3_256_hash};
use crate::provider::traits::encodings;
use crate::r1cs::R1CSShape;
use crate::traits::commitment::CommitmentKey;
use crate::traits::{DlogGroup, Engine, PrimeField};

verus! {

/// The number of bits of a hash that a digest keeps.
pub const NUM_HASH_BITS: usize = 250;

/// The number that a hash stands for as a digest: its low 250 bits, the
/// hash read least significant byte first.
pub open spec fn digest_of_hash(hash: Seq<u8>) -> nat {
    le_value(hash) % pow2(250)
}

/// The digest of a byte string.
pub open spec fn digest_of(bytes: Seq<u8>) -> nat {
    digest_of_hash(sha3_256(bytes))
}

/// The first `k` of a sequence of encodings, one after the other.
pub open spec fn joined(encodings: Seq<Seq<u8>>, k: nat) -> Seq<u8>
    decreases k,
{
    if k == 0 {
        Seq::empty()
    } else {
        joined(encodings, (k - 1) as nat) + encodings[k - 1]
    }
}

/// The encodings of a sequence of shapes.
pub open spec fn shape_encodings<E: Engine>(shapes: Seq<&R1CSShape<E>>) -> Seq<Seq<u8>> {
    Seq::new(shapes.len(), |i: int| shapes[i].encoding())
}

/// A commitment key and the shapes of a batch, laid out as bytes: the
/// number of generators and the generators, then the number of shapes and
/// the shapes.
pub open spec fn parameter_bytes<E: Engine>(ck: Seq<E::GE>, shapes: Seq<&R1CSShape<E>>) -> Seq<u8> {
    le_bytes(ck.len(), 8) + joined(encodings(ck), ck.len()) + le_bytes(shapes.len(), 8) + joined(
        shape_encodings(shapes),
        shapes.len(),
    )
}

/// The element of the field `F` that a hash stands for as a digest.
pub fn map_to_field<F: PrimeField>(hash: &[u8; 32]) -> (r: F)
    ensures
        r.value() == digest_of_hash(hash@),
{
    let top = hash[31];
    let kept = top & 3;
    let mut masked = *hash;
    masked[31] = kept;
    proof {
        let low = le_value(hash@.take(31)) as int;
        let p = pow2(248) as int;
        assert(kept == top % 4) by (bit_vector)
            requires
                kept == top & 3,
        ;
        assert(masked@.take(31) =~= hash@.take(31));
        assert(masked@.skip(31) =~= seq![kept]);
        assert(hash@.skip(31) =~= seq![top]);
        lemma_le_value_single(kept);
        lemma_le_value_single(top);
        lemma_le_value_split(masked@, 31);
        lemma_le_value_split(hash@, 31);
        lemma_le_value_bound(hash@.take(31));
        lemma_pow2_adds(248, 2);
        lemma_pow2_pos(248);
        lemma2_to64();
        assert(le_value(hash@) == (top / 4) * (4 * p) + (low + p * kept)) by (nonlinear_arith)
            requires
                le_value(hash@) == low + p * top,
                kept == top % 4,
                top == 4 * (top / 4) + top % 4,
        ;
        assert(0 <= low + p * kept < 4 * p) by (nonlinear_arith)
            requires
                0 <= low < p,
                0 <= kept < 4,
        ;
        lemma_fundamental_div_mod_converse(
            le_value(hash@) as int,
            4 * p,
            (top / 4) as int,
            low + p * kept,
        );
        F::modulus_bounds();
    }
    F::from_bytes(&masked).unwrap()
}

/// The digest of a byte string, as an element of the field `F`.
pub fn digest_of_bytes<F: PrimeField>(bytes: &[u8]) -> (r: F)
    ensures
        r.value() == digest_of(bytes@),
{
    let hash = sha3_256_hash(bytes);
    map_to_field::<F>(&hash)
}

/// The digest of a commitment key and the shapes of a batch: a function
/// of the generators and of the shapes, and of nothing else.
pub fn parameters_digest<E: Engine>(ck: &CommitmentKey<E::GE>, shapes: &Vec<&R1CSShape<E>>) -> (r:
    E::Scalar)
    ensures
        r.value() == digest_of(parameter_bytes(ck.ck@, shapes@)),
{
    let mut out: Vec<u8> = Vec::new();
    append_count(&mut out, ck.ck.len());
    let mut i: usize = 0;
    while i < ck.ck.len()
        invariant
            i <= ck.ck@.len(),
            out@ == le_bytes(ck.ck@.len(), 8) + joined(encodings(ck.ck@), i as nat),
        decreases ck.ck@.len() - i,
    {
        let encoding = ck.ck[i].to_bytes();
        append_bytes(&mut out, encoding.as_slice());
        proof {
            assert(encodings(ck.ck@)[i as int] == encoding@);
            assert(out@ =~= le_bytes(ck.ck@.len(), 8) + joined(encodings(ck.ck@), (i + 1) as nat));
        }
        i = i + 1;
    }
    append_count(&mut out, shapes.len());
    let ghost head = out@;
    let mut j: usize = 0;
    while j < shapes.len()
        invariant
            j <= shapes@.len(),
            head == le_bytes(ck.ck@.len(), 8) + joined(encodings(ck.ck@), ck.ck@.len()) + le_bytes(
                shapes@.len(),
                8,
            ),
            out@ == head + joined(shape_encodings(shapes@), j as nat),
        decreases shapes@.len() - j,
    {
        shapes[j].write_to(&mut out);
        proof {
            assert(shape_encodings(shapes@)[j as int] == shapes@[j as int].encoding());
            assert(out@ =~= head + joined(shape_encodings(shapes@), (j + 1) as nat));
        }
        j = j + 1;
    }
    proof {
        assert(out@ =~= parameter_bytes(ck.ck@, shapes@));
    }
    digest_of_bytes::<E::Scalar>(out.as_slice())
}

} // verus!
