//! The two hash functions that keys and digests are derived with.
//!
//! Both are computed by the `sha3` crate. Their outputs are named here and
//! nothing more is claimed of them than that they are functions of the
//! input.

use vstd::prelude::*;
use sha3::digest::ExtendableOutput;
use sha3::digest::Update;
use sha3::digest::XofReader;
use sha3::Digest;

verus! {

/// The byte at `position` of the output stream of SHAKE256 on `input`.
pub uninterp spec fn shake256_byte(input: Seq<u8>, position: nat) -> u8;

/// The SHA3-256 hash of `input`.
pub uninterp spec fn sha3_256(input: Seq<u8>) -> Seq<u8>;

/// The first `len` bytes of the output stream of SHAKE256 on `input`.
pub open spec fn shake256_prefix(input: Seq<u8>, len: nat) -> Seq<u8> {
    Seq::new(len, |i: int| shake256_byte(input, i as nat))
}

/// Feeds `input` to `Shake256` and reads `len` bytes from the reader that
/// `finalize_xof` returns: the start of the output stream.
#[verifier::external_body]
pub(crate) fn shake256_read(input: &[u8], len: usize) -> (r: Vec<u8>)
    ensures
        r@.len() == len,
        forall|i: int| 0 <= i < len ==> r@[i] == shake256_byte(input@, i as nat),
{
    let mut hasher = sha3::Shake256::default();
    hasher.update(input);
    let mut out = vec![0u8; len];
    hasher.finalize_xof().read(&mut out);
    out
}

/// Feeds `input` to `Sha3_256` and returns what `finalize` gives: the 32
/// bytes of the hash.
#[verifier::external_body]
pub(crate) fn sha3_256_hash(input: &[u8]) -> (r: [u8; 32])
    ensures
        r@ == sha3_256(input@),
{
    let mut hasher = sha3::Sha3_256::new();
    Digest::update(&mut hasher, input);
    hasher.finalize().into()
}

} // verus!
