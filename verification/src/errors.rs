//! Failures reported by the layers below the batched proving interface.

use vstd::prelude::*;

verus! {

/// A failure of constraint-system validation, of a commitment, or of proof
/// verification.
#[derive(Clone, Copy, Debug, PartialEq, Eq, Structural)]
pub enum NovaError {
    /// Two sequences that have to run in parallel differ in length.
    InvalidInputLength,
    /// A commitment key holds fewer generators than there are values to commit to.
    InvalidCommitmentKeyLength,
    /// A witness does not have the length that its shape asks for.
    InvalidWitnessLength,
    /// An index names a row, a column or a batch member that does not exist.
    InvalidIndex,
    /// An instance and witness do not satisfy the constraint system.
    UnSat,
    /// A proof was rejected by the verifier.
    ProofVerifyError,
}

impl NovaError {
    /// The short name under which the failure is reported.
    pub fn message(&self) -> (r: &'static str)
        ensures
            r@ == self.message_text(),
    {
        match self {
            NovaError::InvalidInputLength => "InvalidInputLength",
            NovaError::InvalidCommitmentKeyLength => "InvalidCommitmentKeyLength",
            NovaError::InvalidWitnessLength => "InvalidWitnessLength",
            NovaError::InvalidIndex => "InvalidIndex",
            NovaError::UnSat => "UnSat",
            NovaError::ProofVerifyError => "ProofVerifyError",
        }
    }

    /// The text that [`NovaError::message`] returns.
    pub open spec fn message_text(&self) -> Seq<char> {
        match self {
            NovaError::InvalidInputLength => "InvalidInputLength"@,
            NovaError::InvalidCommitmentKeyLength => "InvalidCommitmentKeyLength"@,
            NovaError::InvalidWitnessLength => "InvalidWitnessLength"@,
            NovaError::InvalidIndex => "InvalidIndex"@,
            NovaError::UnSat => "UnSat"@,
            NovaError::ProofVerifyError => "ProofVerifyError"@,
        }
    }
}

} // verus!
