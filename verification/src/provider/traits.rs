//! Deriving generators of a group from a label.
//!
//! The label is expanded by SHAKE256 into a stream of bytes, and each run
//! of 32 bytes of the stream is hashed to one element of the group. The
//! element at a position depends on the label and the position alone, so
//! the positions can be shared out in any way.

use vstd::prelude::*;
use vstd::arithmetic::div_mod::{
    lemma_div_is_ordered, lemma_div_is_ordered_by_denominator, lemma_fundamental_div_mod,
};
use crate::provider::hashing::{shake256_byte, shake256_prefix, shake256_read};
use crate::traits::DlogGroup;

verus! {

/// The prefix under which runs of the stream are hashed to the group.
pub open spec fn derivation_domain() -> Seq<char> {
    "from_uniform_bytes"@
}

/// The canonical encodings of a sequence of group elements.
pub open spec fn encodings<G: DlogGroup>(points: Seq<G>) -> Seq<Seq<u8>> {
    Seq::new(points.len(), |i: int| points[i].encoding())
}

/// The run of 32 bytes at position `i` of the stream that `label` expands
/// to.
pub open spec fn uniform_block(label: Seq<u8>, i: nat) -> Seq<u8> {
    Seq::new(32, |j: int| shake256_byte(label, (32 * i + j) as nat))
}

/// The encoding of the generator at position `i` under `label`.
pub open spec fn generator_at<G: DlogGroup>(label: Seq<u8>, i: nat) -> Seq<u8> {
    G::hashed(derivation_domain(), uniform_block(label, i))
}

/// The encodings of the first `n` generators under `label`.
pub open spec fn generators<G: DlogGroup>(label: Seq<u8>, n: nat) -> Seq<Seq<u8>> {
    Seq::new(n, |i: int| generator_at::<G>(label, i as nat))
}

/// The bytes that `n` generators are hashed from: the first `32 * n` bytes
/// of the stream.
pub fn uniform_bytes(label: &[u8], n: usize) -> (r: Vec<u8>)
    requires
        n * 32 <= usize::MAX,
    ensures
        r@ == shake256_prefix(label@, (32 * n) as nat),
{
    let out = shake256_read(label, n * 32);
    proof {
        assert(out@ =~= shake256_prefix(label@, (32 * n) as nat));
    }
    out
}

/// The generators at the positions from `start` up to `end`, hashed from
/// the bytes of the stream.
pub fn hash_blocks<G: DlogGroup>(uniform: &[u8], start: usize, end: usize) -> (r: Vec<G>)
    requires
        start <= end,
        end * 32 <= uniform@.len(),
    ensures
        r@.len() == end - start,
        forall|i: int|
            0 <= i < end - start ==> (#[trigger] r@[i]).encoding() == G::hashed(
                derivation_domain(),
                uniform@.subrange(32 * (start + i), 32 * (start + i) + 32),
            ),
{
    let mut out: Vec<G> = Vec::new();
    let mut k: usize = start;
    let total = uniform.len();
    proof {
        reveal_strlit("from_uniform_bytes");
    }
    while k < end
        invariant
            start <= k <= end,
            end * 32 <= uniform@.len(),
            total == uniform@.len(),
            out@.len() == k - start,
            "from_uniform_bytes".is_ascii(),
            "from_uniform_bytes"@.len() <= 128,
            forall|i: int|
                0 <= i < k - start ==> (#[trigger] out@[i]).encoding() == G::hashed(
                    derivation_domain(),
                    uniform@.subrange(32 * (start + i), 32 * (start + i) + 32),
                ),
        decreases end - k,
    {
        proof {
            assert(32 * k + 32 <= end * 32);
        }
        let block = vstd::slice::slice_subrange(uniform, 32 * k, 32 * k + 32);
        out.push(G::hash_to_curve("from_uniform_bytes", block));
        k = k + 1;
    }
    out
}

/// A run of the first `32 * n` bytes of the stream is the block at its
/// position.
pub proof fn lemma_block_of_prefix(label: Seq<u8>, n: nat, i: nat)
    requires
        i < n,
    ensures
        shake256_prefix(label, 32 * n).subrange(32 * i as int, 32 * i as int + 32) == uniform_block(
            label,
            i,
        ),
{
    assert(shake256_prefix(label, 32 * n).subrange(32 * i as int, 32 * i as int + 32) =~= uniform_block(
        label,
        i,
    ));
}

/// The first `n` generators under `label`.
///
/// The result depends on the label and on `n` alone, and a longer
/// derivation under the same label starts with it.
pub fn from_label<G: DlogGroup>(label: &[u8], n: usize) -> (r: Vec<G>)
    requires
        n * 32 <= usize::MAX,
    ensures
        r@.len() == n,
        encodings(r@) == generators::<G>(label@, n as nat),
{
    let uniform = uniform_bytes(label, n);
    let out = hash_blocks::<G>(uniform.as_slice(), 0, n);
    proof {
        assert forall|i: int| 0 <= i < n implies encodings(out@)[i] == generators::<G>(
            label@,
            n as nat,
        )[i] by {
            lemma_block_of_prefix(label@, n as nat, i as nat);
        }
        assert(encodings(out@) =~= generators::<G>(label@, n as nat));
    }
    out
}

/// The first `n` generators under `label`, derived by `workers` workers in
/// turn: the positions are cut into `workers` runs of equal length, the
/// last worker takes what is left, and the runs are joined in the order of
/// the workers.
///
/// The result does not depend on `workers`: it is what [`from_label`]
/// returns.
pub fn from_label_in_parts<G: DlogGroup>(label: &[u8], n: usize, workers: usize) -> (r: Vec<G>)
    requires
        n * 32 <= usize::MAX,
    ensures
        r@.len() == n,
        encodings(r@) == generators::<G>(label@, n as nat),
{
    if workers == 0 || n <= workers {
        return from_label(label, n);
    }
    let uniform = uniform_bytes(label, n);
    // the length of a run, rounded up
    let run = if n % workers == 0 {
        n / workers
    } else {
        n / workers + 1
    };
    proof {
        lemma_fundamental_div_mod(n as int, workers as int);
        lemma_div_is_ordered(workers as int, n as int, workers as int);
        if workers >= 2 {
            lemma_div_is_ordered_by_denominator(n as int, 2, workers as int);
        }
        assert(workers * run >= n) by (nonlinear_arith)
            requires
                n == workers * (n / workers) + n % workers,
                0 <= n % workers < workers,
                run == n / workers + (if n % workers == 0 {
                    0int
                } else {
                    1int
                }),
        ;
    }
    let mut out: Vec<G> = Vec::new();
    let mut worker: usize = 0;
    while worker < workers
        invariant
            worker <= workers,
            1 <= run <= n,
            workers * run >= n,
            n * 32 <= usize::MAX,
            uniform@ == shake256_prefix(label@, (32 * n) as nat),
            out@.len() == (if worker * run <= n {
                worker * run
            } else {
                n as int
            }),
            encodings(out@) =~= generators::<G>(label@, out@.len()),
        decreases workers - worker,
    {
        let start = out.len();
        let end = if n - start < run {
            n
        } else {
            start + run
        };
        let mut part = hash_blocks::<G>(uniform.as_slice(), start, end);
        let ghost before = out@;
        let ghost added = part@;
        out.append(&mut part);
        proof {
            assert((worker + 1) * run == worker * run + run) by (nonlinear_arith);
            assert(out@ =~= before + added);
            assert forall|i: int| 0 <= i < out@.len() implies encodings(out@)[i] == generators::<G>(
                label@,
                out@.len(),
            )[i] by {
                if i < start {
                    assert(encodings(before)[i] == generators::<G>(label@, before.len())[i]);
                } else {
                    lemma_block_of_prefix(label@, n as nat, i as nat);
                    assert(out@[i] == added[i - start]);
                }
            }
        }
        worker = worker + 1;
    }
    proof {
        assert(workers * run >= n);
        assert(out@.len() == n) by (nonlinear_arith)
            requires
                worker == workers,
                workers * run >= n,
                out@.len() == (if worker * run <= n {
                    worker * run
                } else {
                    n as int
                }),
        ;
    }
    out
}

} // verus!
