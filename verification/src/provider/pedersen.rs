//! The commitment scheme on discrete logarithms: its generators are hashed
//! from a label, so no one knows how they relate, and no setup has to be
//! trusted.

use vstd::prelude::*;
use std::marker::PhantomData;
use crate::provider::traits::{encodings, from_label, generators};
use crate::traits::commitment::{CommitmentEngineTrait, CommitmentKey};
use crate::traits::DlogGroup;

verus! {

/// The scheme over the group `G`.
pub struct CommitmentEngine<G: DlogGroup> {
    _group: PhantomData<G>,
}

impl<G: DlogGroup> CommitmentEngineTrait<G> for CommitmentEngine<G> {
    /// The key of the first `n` generators derived from the label.
    fn setup(label: &[u8], n: usize) -> (ck: CommitmentKey<G>)
        ensures
            encodings(ck.ck@) == generators::<G>(label@, n as nat),
    {
        let ck = CommitmentKey::from_generators(from_label::<G>(label, n));
        proof {
            assert(ck@.len() == encodings(ck.ck@).len());
        }
        ck
    }
}

} // verus!
