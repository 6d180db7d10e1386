//! The failures that proving over a batch of circuits reports.

use vstd::prelude::*;
use vstd::std_specs::convert::FromSpecImpl;
use crate::errors::NovaError;

verus! {

/// A failure of the batched interface.
#[derive(Debug, Eq, PartialEq)]
pub enum SuperNovaError {
    /// A failure of a layer below, passed on as it came.
    NovaError(NovaError),
    /// The commitment key is missing or holds too few generators.
    MissingCK,
    /// A member of a batch is not satisfied: its name and its position.
    UnSatIndex(&'static str, usize),
}

impl From<NovaError> for SuperNovaError {
    fn from(e: NovaError) -> (r: Self) {
        SuperNovaError::NovaError(e)
    }
}

impl FromSpecImpl<NovaError> for SuperNovaError {
    open spec fn obeys_from_spec() -> bool {
        true
    }

    open spec fn from_spec(e: NovaError) -> Self {
        SuperNovaError::NovaError(e)
    }
}

impl SuperNovaError {
    /// The short name under which the failure is reported.
    pub fn message(&self) -> (r: &'static str)
        ensures
            r@ == self.message_text(),
    {
        match self {
            SuperNovaError::NovaError(_) => "NovaError",
            SuperNovaError::MissingCK => "MissingCK",
            SuperNovaError::UnSatIndex(_, _) => "UnSatIndex",
        }
    }

    /// The text that [`SuperNovaError::message`] returns.
    pub open spec fn message_text(&self) -> Seq<char> {
        match self {
            SuperNovaError::NovaError(_) => "NovaError"@,
            SuperNovaError::MissingCK => "MissingCK"@,
            SuperNovaError::UnSatIndex(_, _) => "UnSatIndex"@,
        }
    }
}

} // verus!
