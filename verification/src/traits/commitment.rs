//! Vector commitments over a group: keys, commitments, and what every
//! commitment scheme offers.

use vstd::prelude::*;
use vstd::arithmetic::div_mod::{lemma_add_mod_noop, lemma_mul_mod_noop_left};
use crate::errors::NovaError;
use crate::provider::util::msm::{
    cpu_best_msm, high_sum, indices, lemma_high_sum_agrees, lemma_high_sum_last,
    lemma_naive_is_sum, lemma_order_positive, naive_accumulate, values,
};
use crate::traits::{group_add, order, DlogGroup};

verus! {

/// The generators that vectors are committed against, in order.
pub struct CommitmentKey<G: DlogGroup> {
    /// The generators.
    pub ck: Vec<G>,
}

/// A commitment to a vector: one element of the group.
pub struct Commitment<G: DlogGroup> {
    /// The element.
    pub comm: G,
}

impl<G: DlogGroup> Clone for Commitment<G> {
    fn clone(&self) -> (r: Self)
        ensures
            r == *self,
    {
        Commitment { comm: self.comm }
    }
}

impl<G: DlogGroup> Copy for Commitment<G> {
}

/// The multiple of the group's generator that the commitment to `vals` is,
/// against generators with the indices `generators`: the sum of `vals[i]`
/// times the index of generator `i`, reduced by the order.
pub open spec fn commitment<G: DlogGroup>(generators: Seq<nat>, vals: Seq<nat>) -> nat {
    naive_accumulate::<G>(vals, generators, vals.len())
}

impl<G: DlogGroup> View for CommitmentKey<G> {
    type V = Seq<nat>;

    /// The indices of the generators.
    open spec fn view(&self) -> Seq<nat> {
        indices(self.ck@)
    }
}

impl<G: DlogGroup> CommitmentKey<G> {
    /// A key that holds the given generators.
    pub fn from_generators(generators: Vec<G>) -> (r: Self)
        ensures
            r.ck@ == generators@,
    {
        CommitmentKey { ck: generators }
    }

    /// The number of generators.
    pub fn length(&self) -> (r: usize)
        ensures
            r == self@.len(),
    {
        self.ck.len()
    }
}

impl<G: DlogGroup> Commitment<G> {
    /// The commitment to the sum of the two committed vectors: whatever
    /// multiples of the generator the two commitments are, the result is
    /// the multiple that their sum says.
    pub fn add(&self, other: &Self) -> (r: Self)
        ensures
            self.comm.encoding() == G::multiple(self.comm.index()),
            other.comm.encoding() == G::multiple(other.comm.index()),
            forall|i: nat, j: nat|
                self.comm.encoding() == #[trigger] G::multiple(i) && other.comm.encoding()
                    == #[trigger] G::multiple(j) ==> r.comm.encoding() == G::multiple(
                    group_add::<G>(i, j),
                ),
    {
        Commitment { comm: self.comm.add(&other.comm) }
    }

    /// The canonical encoding of the commitment.
    pub fn to_bytes(&self) -> (r: [u8; 32])
        ensures
            r@ == self.comm.encoding(),
    {
        self.comm.to_bytes()
    }
}

/// Commits to `v` against the first generators of `ck`. A key with fewer
/// generators than `v` has values is refused.
pub fn commit<G: DlogGroup>(ck: &CommitmentKey<G>, v: &[G::Scalar]) -> (r: Result<
    Commitment<G>,
    NovaError,
>)
    ensures
        v@.len() > ck@.len() ==> r == Err::<Commitment<G>, NovaError>(
            NovaError::InvalidCommitmentKeyLength,
        ),
        v@.len() <= ck@.len() ==> r is Ok && r->Ok_0.comm.encoding() == G::multiple(
            commitment::<G>(ck@, values(v@)),
        ),
{
    let n = v.len();
    if n > ck.ck.len() {
        return Err(NovaError::InvalidCommitmentKeyLength);
    }
    let used = vstd::slice::slice_subrange(ck.ck.as_slice(), 0, n);
    match cpu_best_msm(used, v) {
        Ok(comm) => {
            proof {
                lemma_naive_is_sum::<G>(values(v@), indices(used@), n as nat);
                lemma_naive_is_sum::<G>(values(v@), ck@, n as nat);
                lemma_high_sum_agrees(values(v@), indices(used@), values(v@), ck@, n as nat);
            }
            Ok(Commitment { comm })
        },
        Err(e) => Err(e),
    }
}

/// Sums of products are additive in the scalars, up to the order: where
/// `sum[i]` is `a[i] + b[i]` reduced, the sum over `sum` is congruent to
/// the sum over `a` plus the sum over `b`.
pub proof fn lemma_high_sum_adds<G: DlogGroup>(
    generators: Seq<nat>,
    a: Seq<nat>,
    b: Seq<nat>,
    sum: Seq<nat>,
    n: nat,
)
    requires
        n <= a.len(),
        n <= b.len(),
        n <= sum.len(),
        forall|i: int| 0 <= i < n ==> sum[i] == (a[i] + b[i]) % order::<G>(),
    ensures
        high_sum(sum, generators, 0, n) % order::<G>() == (high_sum(a, generators, 0, n)
            + high_sum(b, generators, 0, n)) % order::<G>(),
    decreases n,
{
    let m = order::<G>() as int;
    lemma_order_positive::<G>();
    if n > 0 {
        lemma_high_sum_adds::<G>(generators, a, b, sum, (n - 1) as nat);
        lemma_high_sum_last(sum, generators, n);
        lemma_high_sum_last(a, generators, n);
        lemma_high_sum_last(b, generators, n);
        let g = generators[n - 1] as int;
        let x = a[n - 1] as int;
        let y = b[n - 1] as int;
        let s = sum[n - 1] as int;
        let before_s = high_sum(sum, generators, 0, (n - 1) as nat) as int;
        let before_a = high_sum(a, generators, 0, (n - 1) as nat) as int;
        let before_b = high_sum(b, generators, 0, (n - 1) as nat) as int;
        assert(high_sum(sum, generators, 0, n) == before_s + s * g);
        assert(high_sum(a, generators, 0, n) == before_a + x * g);
        assert(high_sum(b, generators, 0, n) == before_b + y * g);
        assert(s == (x + y) % m);
        lemma_mul_mod_noop_left(x + y, g, m);
        assert((s * g) % m == ((x + y) * g) % m);
        lemma_add_mod_noop(before_s, s * g, m);
        lemma_add_mod_noop(before_a + before_b, (x + y) * g, m);
        assert((x + y) * g == x * g + y * g) by (nonlinear_arith);
        assert(before_a + before_b + (x + y) * g == (before_a + x * g) + (before_b + y * g));
    }
}

/// Commitments are additive: the sum of the commitments to two vectors of
/// one length, against one key, is the commitment to the vector of the
/// sums of their entries in the scalar field.
///
/// [`commit`] and [`Commitment::add`] state their results as the multiples
/// of the generator that are related here, so the law holds of the
/// encodings that they return.
pub proof fn lemma_commitment_is_additive<G: DlogGroup>(
    generators: Seq<nat>,
    a: Seq<nat>,
    b: Seq<nat>,
    sum: Seq<nat>,
)
    requires
        a.len() == b.len(),
        a.len() == sum.len(),
        forall|i: int| 0 <= i < a.len() ==> sum[i] == (a[i] + b[i]) % order::<G>(),
    ensures
        group_add::<G>(commitment::<G>(generators, a), commitment::<G>(generators, b))
            == commitment::<G>(generators, sum),
{
    let m = order::<G>() as int;
    let n = a.len();
    lemma_order_positive::<G>();
    lemma_naive_is_sum::<G>(a, generators, n);
    lemma_naive_is_sum::<G>(b, generators, n);
    lemma_naive_is_sum::<G>(sum, generators, n);
    lemma_high_sum_adds::<G>(generators, a, b, sum, n);
    lemma_add_mod_noop(high_sum(a, generators, 0, n) as int, high_sum(b, generators, 0, n) as int, m);
}

/// A vector-commitment scheme over the group `G`. The schemes differ in
/// where their keys come from; all commit by a multi-scalar multiplication
/// against the key.
pub trait CommitmentEngineTrait<G: DlogGroup> {
    /// A key of `n` generators for the given label.
    fn setup(label: &[u8], n: usize) -> (ck: CommitmentKey<G>)
        requires
            n * 32 <= usize::MAX,
        ensures
            ck@.len() == n,
    ;

    /// Commits to `v` against the first generators of `ck`. A key with
    /// fewer generators than `v` has values is refused.
    fn commit(ck: &CommitmentKey<G>, v: &[G::Scalar]) -> (r: Result<Commitment<G>, NovaError>)
        ensures
            v@.len() > ck@.len() ==> r == Err::<Commitment<G>, NovaError>(
                NovaError::InvalidCommitmentKeyLength,
            ),
            v@.len() <= ck@.len() ==> r is Ok && r->Ok_0.comm.encoding() == G::multiple(
                commitment::<G>(ck@, values(v@)),
            ),
    {
        commit(ck, v)
    }
}

} // verus!
