//! Proving over batches of circuits: the failures that the batched
//! interface reports, and the check that finds the member of a batch that
//! is not satisfied.

pub mod error;

use vstd::prelude::*;
use crate::errors::NovaError;
use crate::r1cs::{R1CSShape, RelaxedR1CSInstance, RelaxedR1CSWitness};
use crate::supernova::error::SuperNovaError;
use crate::traits::commitment::CommitmentKey;
use crate::traits::Engine;

verus! {

/// Which members of a batch are satisfied under the key whose generators
/// have the indices `ck`. The three sequences run in parallel.
pub open spec fn satisfied_members<E: Engine>(
    ck: Seq<nat>,
    shapes: Seq<&R1CSShape<E>>,
    instances: Seq<RelaxedR1CSInstance<E>>,
    witnesses: Seq<RelaxedR1CSWitness<E>>,
) -> Seq<bool> {
    Seq::new(shapes.len(), |i: int| shapes[i].is_satisfied(ck, &instances[i], &witnesses[i]))
}

/// The position of the first member that is not satisfied, or the length
/// of the batch where all are.
pub open spec fn first_failure(satisfied: Seq<bool>) -> nat
    decreases satisfied.len(),
{
    if satisfied.len() == 0 || !satisfied[0] {
        0
    } else {
        1 + first_failure(satisfied.drop_first())
    }
}

/// What the check of a batch reports: the name and the position of the
/// first member that is not satisfied, or success where all are.
pub open spec fn batch_verdict(names: Seq<&'static str>, satisfied: Seq<bool>) -> Result<
    (),
    SuperNovaError,
> {
    let i = first_failure(satisfied);
    if i < satisfied.len() {
        Err(SuperNovaError::UnSatIndex(names[i as int], i as usize))
    } else {
        Ok(())
    }
}

/// The first failure is a failure, and no member before it is one.
pub proof fn lemma_first_failure(satisfied: Seq<bool>)
    ensures
        first_failure(satisfied) <= satisfied.len(),
        first_failure(satisfied) < satisfied.len() ==> !satisfied[first_failure(satisfied) as int],
        forall|j: int| 0 <= j < first_failure(satisfied) ==> satisfied[j],
    decreases satisfied.len(),
{
    if satisfied.len() > 0 && satisfied[0] {
        let rest = satisfied.drop_first();
        lemma_first_failure(rest);
        assert forall|j: int| 0 <= j < first_failure(satisfied) implies satisfied[j] by {
            if j > 0 {
                assert(rest[j - 1] == satisfied[j]);
            }
        }
    }
}

/// A member that is not satisfied, after members that all are, is the
/// first failure.
pub proof fn lemma_first_failure_at(satisfied: Seq<bool>, i: int)
    requires
        0 <= i <= satisfied.len(),
        i < satisfied.len() ==> !satisfied[i],
        forall|j: int| 0 <= j < i ==> satisfied[j],
    ensures
        first_failure(satisfied) == i,
{
    lemma_first_failure(satisfied);
}

/// Where exactly one member of a batch is not satisfied, the verdict names
/// that member and its position, and no other.
pub proof fn lemma_single_fault_is_located(names: Seq<&'static str>, satisfied: Seq<bool>, i: int)
    requires
        0 <= i < satisfied.len(),
        !satisfied[i],
        forall|j: int| 0 <= j < satisfied.len() && j != i ==> satisfied[j],
    ensures
        batch_verdict(names, satisfied) == Err::<(), SuperNovaError>(
            SuperNovaError::UnSatIndex(names[i], i as usize),
        ),
{
    lemma_first_failure_at(satisfied, i);
}

/// Checks the members of a batch in order and reports the first that is
/// not satisfied, by the name given for it and by its position.
///
/// The four sequences have to run in parallel; where their lengths
/// differ, that is reported and no member is checked.
pub fn check_batch<E: Engine>(
    names: &[&'static str],
    ck: &CommitmentKey<E::GE>,
    shapes: &Vec<&R1CSShape<E>>,
    instances: &[RelaxedR1CSInstance<E>],
    witnesses: &[RelaxedR1CSWitness<E>],
) -> (r: Result<(), SuperNovaError>)
    ensures
        !(names@.len() == shapes@.len() && instances@.len() == shapes@.len() && witnesses@.len()
            == shapes@.len()) ==> r == Err::<(), SuperNovaError>(
            SuperNovaError::NovaError(NovaError::InvalidInputLength),
        ),
        names@.len() == shapes@.len() && instances@.len() == shapes@.len() && witnesses@.len()
            == shapes@.len() ==> r == batch_verdict(
            names@,
            satisfied_members(ck@, shapes@, instances@, witnesses@),
        ),
{
    let n = shapes.len();
    if names.len() != n || instances.len() != n || witnesses.len() != n {
        return Err(SuperNovaError::NovaError(NovaError::InvalidInputLength));
    }
    let ghost satisfied = satisfied_members(ck@, shapes@, instances@, witnesses@);
    let mut i: usize = 0;
    while i < n
        invariant
            i <= n,
            n == shapes@.len(),
            n == names@.len(),
            n == instances@.len(),
            n == witnesses@.len(),
            satisfied == satisfied_members(ck@, shapes@, instances@, witnesses@),
            forall|j: int| 0 <= j < i ==> satisfied[j],
        decreases n - i,
    {
        match shapes[i].is_sat_relaxed(ck, &instances[i], &witnesses[i]) {
            Ok(_) => {},
            Err(_) => {
                proof {
                    lemma_first_failure_at(satisfied, i as int);
                }
                return Err(SuperNovaError::UnSatIndex(names[i], i));
            },
        }
        i = i + 1;
    }
    proof {
        lemma_first_failure_at(satisfied, n as int);
    }
    Ok(())
}

} // verus!
