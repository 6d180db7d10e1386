//! Keccak256 as the transcript of an engine.

use vstd::prelude::*;
use std::marker::PhantomData;
use crate::traits::{DlogGroup, TranscriptEngineTrait};

verus! {

/// A transcript that absorbs messages into Keccak256 and squeezes
/// challenges from the scalar field of `G`.
pub struct Keccak256Transcript<G: DlogGroup> {
    _group: PhantomData<G>,
}

impl<G: DlogGroup> TranscriptEngineTrait<G> for Keccak256Transcript<G> {
}

} // verus!
