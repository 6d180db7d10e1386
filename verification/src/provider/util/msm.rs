//! Multi-scalar multiplication by the bucket method.
//!
//! The scalars are cut into windows of a few bits. For each window, from
//! the most significant down, the accumulator is doubled once per bit; the
//! points are sorted into one bucket per non-zero digit; and the buckets are
//! added up digit-weighted by summation by parts. The result is proved to be
//! what the accumulate-and-add loop gives.

use vstd::prelude::*;
use vstd::arithmetic::div_mod::*;
use vstd::arithmetic::mul::*;
use vstd::arithmetic::power2::*;
use crate::errors::NovaError;
use crate::little_endian::{le_value, lemma_le_value_bound, lemma_window_in_byte, lemma_window_step, window};
use crate::traits::{group_add, group_mul, order, DlogGroup, PrimeField};

verus! {

/// The numbers that a sequence of field elements stands for.
pub open spec fn values<F: PrimeField>(scalars: Seq<F>) -> Seq<nat> {
    Seq::new(scalars.len(), |i: int| scalars[i].value())
}

/// The indices of a sequence of group elements.
pub open spec fn indices<G: DlogGroup>(points: Seq<G>) -> Seq<nat> {
    Seq::new(points.len(), |i: int| points[i].index())
}

/// The index that the accumulate-and-add loop reaches over the first `n`
/// pairs: it starts at the neutral element and adds `scalars[i]` times
/// `points[i]` for each `i` in turn.
pub open spec fn naive_accumulate<G: DlogGroup>(scalars: Seq<nat>, points: Seq<nat>, n: nat) -> nat
    decreases n,
{
    if n == 0 {
        0
    } else {
        group_add::<G>(
            naive_accumulate::<G>(scalars, points, (n - 1) as nat),
            group_mul::<G>(scalars[n - 1], points[n - 1]),
        )
    }
}

/// The sum of `(scalars[i] / 2^offset) * points[i]` over the first `n`
/// pairs, not reduced.
pub open spec fn high_sum(scalars: Seq<nat>, points: Seq<nat>, offset: nat, n: nat) -> nat
    decreases n,
{
    if n == 0 {
        0
    } else {
        high_sum(scalars, points, offset, (n - 1) as nat) + (scalars[n - 1] / pow2(offset))
            * points[n - 1]
    }
}

/// The sum of `d[i] * points[i]` over the first `n` pairs, where `d[i]` is
/// the digit of `width` bits that `scalars[i]` has at `offset`.
pub open spec fn window_sum(
    scalars: Seq<nat>,
    points: Seq<nat>,
    offset: nat,
    width: nat,
    n: nat,
) -> nat
    decreases n,
{
    if n == 0 {
        0
    } else {
        window_sum(scalars, points, offset, width, (n - 1) as nat) + window(
            scalars[n - 1],
            offset,
            width,
        ) * points[n - 1]
    }
}

/// The sum of `(k + 1) * buckets[k]`: what the buckets of one window are
/// worth when bucket `k` holds the points with digit `k + 1`.
pub open spec fn weighted(buckets: Seq<nat>) -> nat
    decreases buckets.len(),
{
    if buckets.len() == 0 {
        0
    } else {
        weighted(buckets.drop_last()) + buckets.len() * buckets.last()
    }
}

/// The sum of the buckets from `k` on.
pub open spec fn tail(buckets: Seq<nat>, k: nat) -> nat
    decreases buckets.len() - k,
{
    if k >= buckets.len() {
        0
    } else {
        buckets[k as int] + tail(buckets, k + 1)
    }
}

/// The sum of the tails from `k` on: what summation by parts has added up
/// when it has come down to bucket `k`.
pub open spec fn tail_sums(buckets: Seq<nat>, k: nat) -> nat
    decreases buckets.len() - k,
{
    if k >= buckets.len() {
        0
    } else {
        tail_sums(buckets, k + 1) + tail(buckets, k)
    }
}

/// The order of a group is positive.
pub proof fn lemma_order_positive<G: DlogGroup>()
    ensures
        order::<G>() > 0,
{
    <G::Scalar as PrimeField>::modulus_bounds();
    lemma_pow2_pos(250);
}

/// The sum over whole scalars grows by one product with each pair.
pub proof fn lemma_high_sum_last(scalars: Seq<nat>, points: Seq<nat>, n: nat)
    requires
        n > 0,
    ensures
        high_sum(scalars, points, 0, n) == high_sum(scalars, points, 0, (n - 1) as nat)
            + scalars[n - 1] * points[n - 1],
{
    lemma2_to64();
    let s = scalars[n - 1];
    assert(s / pow2(0) == s) by {
        assert(pow2(0) == 1);
        lemma_div_basics_2(s as int);
    }
}

/// The accumulate-and-add loop computes the sum of the products, reduced by
/// the order.
pub proof fn lemma_naive_is_sum<G: DlogGroup>(scalars: Seq<nat>, points: Seq<nat>, n: nat)
    ensures
        naive_accumulate::<G>(scalars, points, n) == high_sum(scalars, points, 0, n) % order::<G>(),
    decreases n,
{
    let m = order::<G>() as int;
    lemma_order_positive::<G>();
    lemma2_to64();
    if n == 0 {
        lemma_small_mod(0, m as nat);
    } else {
        let prev = high_sum(scalars, points, 0, (n - 1) as nat) as int;
        let term = (scalars[n - 1] * points[n - 1]) as int;
        lemma_naive_is_sum::<G>(scalars, points, (n - 1) as nat);
        lemma_add_mod_noop(prev, term, m);
        assert(scalars[n - 1] / pow2(0) == scalars[n - 1]);
    }
}

/// Peeling one window off the scalars: the sum over the bits from `offset`
/// up is `2^width` times the sum over the bits from `offset + width` up,
/// plus the sum over the window.
pub proof fn lemma_high_sum_step(
    scalars: Seq<nat>,
    points: Seq<nat>,
    offset: nat,
    width: nat,
    n: nat,
)
    ensures
        high_sum(scalars, points, offset, n) == pow2(width) * high_sum(
            scalars,
            points,
            offset + width,
            n,
        ) + window_sum(scalars, points, offset, width, n),
    decreases n,
{
    if n > 0 {
        lemma_high_sum_step(scalars, points, offset, width, (n - 1) as nat);
        let s = scalars[n - 1];
        let p = points[n - 1];
        lemma_window_step(s, offset, width);
        let hi = s / pow2(offset + width);
        let d = window(s, offset, width);
        let w = pow2(width);
        let rest = high_sum(scalars, points, offset + width, (n - 1) as nat);
        assert((w * hi + d) * p == w * (hi * p) + d * p) by (nonlinear_arith);
        assert(w * (rest + hi * p) == w * rest + w * (hi * p)) by (nonlinear_arith);
        assert(high_sum(scalars, points, offset + width, n) == rest + hi * p);
    } else {
        assert(pow2(width) * 0 == 0);
    }
}

/// Above the bits that the scalars have there is nothing to sum.
pub proof fn lemma_high_sum_top(scalars: Seq<nat>, points: Seq<nat>, offset: nat, n: nat)
    requires
        n <= scalars.len(),
        forall|i: int| 0 <= i < n ==> #[trigger] scalars[i] < pow2(offset),
    ensures
        high_sum(scalars, points, offset, n) == 0,
    decreases n,
{
    if n > 0 {
        lemma_high_sum_top(scalars, points, offset, (n - 1) as nat);
        lemma_pow2_pos(offset);
        lemma_basic_div(scalars[n - 1] as int, pow2(offset) as int);
        assert(scalars[n - 1] / pow2(offset) == 0);
        assert(0 * points[n - 1] == 0);
    }
}

/// Adding `x` to bucket `j` raises the worth of the buckets by `(j + 1) * x`.
pub proof fn lemma_weighted_update(buckets: Seq<nat>, j: int, x: nat)
    requires
        0 <= j < buckets.len(),
    ensures
        weighted(buckets.update(j, buckets[j] + x)) == weighted(buckets) + (j + 1) * x,
    decreases buckets.len(),
{
    let updated = buckets.update(j, buckets[j] + x);
    let len = buckets.len();
    if j == len - 1 {
        assert(updated.drop_last() =~= buckets.drop_last());
        assert(len * (buckets[j] + x) == len * buckets[j] + len * x) by (nonlinear_arith);
    } else {
        lemma_weighted_update(buckets.drop_last(), j, x);
        assert(updated.drop_last() =~= buckets.drop_last().update(j, buckets[j] + x));
        assert(updated.last() == buckets.last());
    }
}

/// Empty buckets are worth nothing.
pub proof fn lemma_weighted_zero(buckets: Seq<nat>)
    requires
        forall|k: int| 0 <= k < buckets.len() ==> buckets[k] == 0,
    ensures
        weighted(buckets) == 0,
    decreases buckets.len(),
{
    if buckets.len() > 0 {
        lemma_weighted_zero(buckets.drop_last());
        assert(buckets.len() * buckets.last() == 0) by (nonlinear_arith)
            requires
                buckets.last() == 0,
        ;
    }
}

/// What one more bucket at the end adds to the tails and to their sums.
pub proof fn lemma_tail_push(buckets: Seq<nat>, x: nat, k: nat)
    requires
        k <= buckets.len(),
    ensures
        tail(buckets.push(x), k) == tail(buckets, k) + x,
        tail_sums(buckets.push(x), k) == tail_sums(buckets, k) + (buckets.len() - k + 1) * x,
    decreases buckets.len() - k,
{
    let longer = buckets.push(x);
    if k == buckets.len() {
        assert(tail(longer, k + 1) == 0);
        assert(tail_sums(longer, k + 1) == 0);
        assert(longer[k as int] == x);
        assert((buckets.len() - k + 1) * x == x) by (nonlinear_arith)
            requires
                k == buckets.len(),
        ;
    } else {
        lemma_tail_push(buckets, x, k + 1);
        assert(longer[k as int] == buckets[k as int]);
        assert((buckets.len() - k + 1) * x == (buckets.len() - (k + 1) + 1) * x + x)
            by (nonlinear_arith);
    }
}

/// Summation by parts gives the worth of the buckets.
pub proof fn lemma_tail_sums_is_weighted(buckets: Seq<nat>)
    ensures
        tail_sums(buckets, 0) == weighted(buckets),
    decreases buckets.len(),
{
    if buckets.len() > 0 {
        let shorter = buckets.drop_last();
        lemma_tail_sums_is_weighted(shorter);
        lemma_tail_push(shorter, buckets.last(), 0);
        assert(shorter.push(buckets.last()) =~= buckets);
    }
}

/// The sum over the first `n` pairs is the sum over the first `k` plus the
/// sum over the pairs from `k` to `n`, taken as sequences of their own.
pub proof fn lemma_high_sum_splits(scalars: Seq<nat>, points: Seq<nat>, k: nat, n: nat)
    requires
        k <= n <= scalars.len(),
        n <= points.len(),
    ensures
        high_sum(scalars, points, 0, n) == high_sum(scalars, points, 0, k) + high_sum(
            scalars.subrange(k as int, n as int),
            points.subrange(k as int, n as int),
            0,
            (n - k) as nat,
        ),
    decreases n,
{
    if n > k {
        let some_s = scalars.subrange(k as int, n as int);
        let some_p = points.subrange(k as int, n as int);
        let fewer_s = scalars.subrange(k as int, n - 1);
        let fewer_p = points.subrange(k as int, n - 1);
        lemma_high_sum_splits(scalars, points, k, (n - 1) as nat);
        lemma_high_sum_agrees(some_s, some_p, fewer_s, fewer_p, (n - 1 - k) as nat);
        assert(some_s[n - 1 - k] == scalars[n - 1]);
        assert(some_p[n - 1 - k] == points[n - 1]);
    }
}

/// The sum over the first `n` pairs depends on the first `n` pairs only.
pub proof fn lemma_high_sum_agrees(
    scalars: Seq<nat>,
    points: Seq<nat>,
    other_scalars: Seq<nat>,
    other_points: Seq<nat>,
    n: nat,
)
    requires
        n <= scalars.len(),
        n <= points.len(),
        n <= other_scalars.len(),
        n <= other_points.len(),
        forall|i: int| 0 <= i < n ==> scalars[i] == other_scalars[i],
        forall|i: int| 0 <= i < n ==> points[i] == other_points[i],
    ensures
        high_sum(scalars, points, 0, n) == high_sum(other_scalars, other_points, 0, n),
    decreases n,
{
    if n > 0 {
        lemma_high_sum_agrees(scalars, points, other_scalars, other_points, (n - 1) as nat);
    }
}

/// The work can be split at any place: the accumulate-and-add loop over the
/// first `n` pairs reaches the sum of what it reaches over the first `k`
/// pairs and what it reaches over the pairs from `k` to `n`.
pub proof fn lemma_accumulate_splits<G: DlogGroup>(
    scalars: Seq<nat>,
    points: Seq<nat>,
    k: nat,
    n: nat,
)
    requires
        k <= n <= scalars.len(),
        n <= points.len(),
    ensures
        naive_accumulate::<G>(scalars, points, n) == group_add::<G>(
            naive_accumulate::<G>(scalars, points, k),
            naive_accumulate::<G>(
                scalars.subrange(k as int, n as int),
                points.subrange(k as int, n as int),
                (n - k) as nat,
            ),
        ),
{
    let m = order::<G>() as int;
    let part_s = scalars.subrange(k as int, n as int);
    let part_p = points.subrange(k as int, n as int);
    lemma_order_positive::<G>();
    lemma_naive_is_sum::<G>(scalars, points, n);
    lemma_naive_is_sum::<G>(scalars, points, k);
    lemma_naive_is_sum::<G>(part_s, part_p, (n - k) as nat);
    lemma_high_sum_splits(scalars, points, k, n);
    lemma_add_mod_noop(
        high_sum(scalars, points, 0, k) as int,
        high_sum(part_s, part_p, 0, (n - k) as nat) as int,
        m,
    );
}

/// `2^k` for a `k` up to 8.
fn two_to(k: usize) -> (r: usize)
    requires
        k <= 8,
    ensures
        r == pow2(k as nat),
        1 <= r <= 256,
{
    let mut r: usize = 1;
    let mut i: usize = 0;
    proof {
        lemma2_to64();
    }
    while i < k
        invariant
            i <= k <= 8,
            r == pow2(i as nat),
            r <= 256,
            r >= 1,
        decreases k - i,
    {
        proof {
            lemma_pow2_unfold((i + 1) as nat);
            lemma_pow2_strictly_increases((i + 1) as nat, 9);
            lemma2_to64();
        }
        r = r * 2;
        i = i + 1;
    }
    r
}

/// The number of bits per window for `n` pairs: the width, among those
/// that divide a byte, for which the bucket method does the fewest
/// additions.
pub fn window_width(n: usize) -> (c: usize)
    ensures
        c == 2 || c == 4 || c == 8,
        c == (if n <= 16 { 2int } else if n <= 448 { 4 } else { 8 }),
{
    if n <= 16 {
        2
    } else if n <= 448 {
        4
    } else {
        8
    }
}

/// The digit of `width` bits that the number spelled by `repr` has at bit
/// `offset`, for a window that does not cross a byte.
fn digit_at(repr: &[u8; 32], offset: usize, width: usize) -> (d: usize)
    requires
        offset < 256,
        offset % 8 + width <= 8,
    ensures
        d == window(le_value(repr@), offset as nat, width as nat),
        d < pow2(width as nat),
{
    let j = offset / 8;
    let shift = offset % 8;
    let b = repr[j] as usize;
    let d = (b / two_to(shift)) % two_to(width);
    proof {
        lemma_window_in_byte(repr@, j as int, shift as nat, width as nat);
        assert(8 * j + shift == offset);
    }
    d
}

/// The sum of `i` times and `j` times the generator.
fn add_multiples<G: DlogGroup>(a: &G, b: &G, Ghost(i): Ghost<nat>, Ghost(j): Ghost<nat>) -> (r: G)
    requires
        a.encoding() == G::multiple(i),
        b.encoding() == G::multiple(j),
    ensures
        r.encoding() == G::multiple((i + j) % order::<G>()),
{
    a.add(b)
}

/// The sum of `i` times the generator and an element of the group.
fn add_element<G: DlogGroup>(a: &G, b: &G, Ghost(i): Ghost<nat>) -> (r: G)
    requires
        a.encoding() == G::multiple(i),
    ensures
        r.encoding() == G::multiple((i + b.index()) % order::<G>()),
{
    a.add(b)
}

/// The element doubled `times` times, for an element that is `x` times
/// the generator.
fn double_times<G: DlogGroup>(p: &G, zero: &G, times: usize, Ghost(x): Ghost<nat>) -> (r: G)
    requires
        p.encoding() == G::multiple(x),
        zero.encoding() == G::multiple(0),
    ensures
        r.encoding() == G::multiple((pow2(times as nat) * x) % order::<G>()),
{
    let ghost m = order::<G>() as int;
    // adding the neutral element reduces the multiple by the order
    let mut r = add_multiples(p, zero, Ghost(x), Ghost(0));
    let mut i: usize = 0;
    proof {
        lemma_order_positive::<G>();
        lemma2_to64();
        assert(pow2(0) * x == x + 0) by (nonlinear_arith)
            requires
                pow2(0) == 1,
        ;
    }
    while i < times
        invariant
            i <= times,
            m == order::<G>(),
            m > 0,
            r.encoding() == G::multiple((pow2(i as nat) * x) % (m as nat)),
        decreases times - i,
    {
        proof {
            let a = pow2(i as nat) * x;
            lemma_pow2_unfold((i + 1) as nat);
            lemma_add_mod_noop(a as int, a as int, m);
            assert(pow2((i + 1) as nat) * x == a + a) by (nonlinear_arith)
                requires
                    pow2((i + 1) as nat) == 2 * pow2(i as nat),
                    a == pow2(i as nat) * x,
            ;
        }
        let ghost a = (pow2(i as nat) * x) % (m as nat);
        r = add_multiples(&r, &r, Ghost(a), Ghost(a));
        i = i + 1;
    }
    r
}

/// The sum, over the pairs, of the point taken as often as the scalar's
/// digit at `offset` says.
fn window_round<G: DlogGroup>(
    bases: &[G],
    reprs: &Vec<[u8; 32]>,
    zero: &G,
    offset: usize,
    width: usize,
) -> (r: G)
    requires
        bases@.len() == reprs@.len(),
        zero.encoding() == G::multiple(0),
        width == 2 || width == 4 || width == 8,
        offset < 256,
        offset % 8 + width <= 8,
    ensures
        r.encoding() == G::multiple(
            window_sum(
                Seq::new(reprs@.len(), |i: int| le_value(reprs@[i]@)),
                indices(bases@),
                offset as nat,
                width as nat,
                bases@.len(),
            ) % order::<G>(),
        ),
{
    let ghost m = order::<G>() as int;
    let ghost svals = Seq::new(reprs@.len(), |i: int| le_value(reprs@[i]@));
    let ghost pidx = indices(bases@);
    let n = bases.len();
    let count = two_to(width) - 1;
    proof {
        lemma_order_positive::<G>();
        lemma_small_mod(0, m as nat);
    }
    // one bucket per non-zero digit, each holding the neutral element
    let mut buckets: Vec<G> = Vec::new();
    let mut k: usize = 0;
    while k < count
        invariant
            k <= count,
            zero.encoding() == G::multiple(0),
            buckets@.len() == k,
            forall|j: int| 0 <= j < k ==> (#[trigger] buckets@[j]).encoding() == G::multiple(0),
        decreases count - k,
    {
        buckets.push(*zero);
        k = k + 1;
    }
    let ghost mut sums: Seq<nat> = Seq::new(count as nat, |j: int| 0nat);
    proof {
        lemma_weighted_zero(sums);
    }
    // sort the points into the buckets
    let mut i: usize = 0;
    while i < n
        invariant
            i <= n,
            n == bases@.len(),
            n == reprs@.len(),
            m == order::<G>(),
            m > 0,
            svals == Seq::new(reprs@.len(), |i: int| le_value(reprs@[i]@)),
            pidx == indices(bases@),
            width == 2 || width == 4 || width == 8,
            offset < 256,
            offset % 8 + width <= 8,
            count == pow2(width as nat) - 1,
            buckets@.len() == count,
            sums.len() == count,
            forall|j: int|
                0 <= j < count ==> (#[trigger] buckets@[j]).encoding() == G::multiple(
                    sums[j] % (m as nat),
                ),
            weighted(sums) == window_sum(svals, pidx, offset as nat, width as nat, i as nat),
        decreases n - i,
    {
        let d = digit_at(&reprs[i], offset, width);
        proof {
            assert(svals[i as int] == le_value(reprs@[i as int]@));
            assert(pidx[i as int] == bases@[i as int].index());
        }
        if d != 0 {
            let moved = add_element(&buckets[d - 1], &bases[i], Ghost(sums[d - 1] % (m as nat)));
            proof {
                lemma_add_mod_noop_right(pidx[i as int] as int, sums[d - 1] as int, m);
                lemma_weighted_update(sums, d - 1, pidx[i as int]);
                assert(pidx[i as int] + sums[d - 1] % (m as nat) == sums[d - 1] % (m as nat)
                    + pidx[i as int]);
                assert(pidx[i as int] + sums[d - 1] == sums[d - 1] + pidx[i as int]);
                sums = sums.update(d - 1, sums[d - 1] + pidx[i as int]);
            }
            buckets.set(d - 1, moved);
        } else {
            proof {
                assert(0 * pidx[i as int] == 0);
            }
        }
        i = i + 1;
    }
    // add the buckets up, the highest digit first
    let mut running = *zero;
    let mut total = *zero;
    let mut k: usize = count;
    while k > 0
        invariant
            k <= count,
            m == order::<G>(),
            m > 0,
            buckets@.len() == count,
            sums.len() == count,
            forall|j: int|
                0 <= j < count ==> (#[trigger] buckets@[j]).encoding() == G::multiple(
                    sums[j] % (m as nat),
                ),
            running.encoding() == G::multiple(tail(sums, k as nat) % (m as nat)),
            total.encoding() == G::multiple(tail_sums(sums, k as nat) % (m as nat)),
        decreases k,
    {
        k = k - 1;
        proof {
            lemma_add_mod_noop(tail(sums, (k + 1) as nat) as int, sums[k as int] as int, m);
            lemma_add_mod_noop(tail_sums(sums, (k + 1) as nat) as int, tail(sums, k as nat) as int, m);
            assert(tail(sums, k as nat) == sums[k as int] + tail(sums, (k + 1) as nat));
            assert(buckets@[k as int].encoding() == G::multiple(sums[k as int] % (m as nat)));
        }
        running = add_multiples(
            &running,
            &buckets[k],
            Ghost(tail(sums, (k + 1) as nat) % (m as nat)),
            Ghost(sums[k as int] % (m as nat)),
        );
        total = add_multiples(
            &total,
            &running,
            Ghost(tail_sums(sums, (k + 1) as nat) % (m as nat)),
            Ghost(tail(sums, k as nat) % (m as nat)),
        );
    }
    proof {
        lemma_tail_sums_is_weighted(sums);
    }
    total
}

/// The bucket method over pairs of equal number.
fn msm_serial<G: DlogGroup>(bases: &[G], scalars: &[G::Scalar]) -> (r: G)
    requires
        bases@.len() == scalars@.len(),
    ensures
        r.encoding() == G::multiple(
            naive_accumulate::<G>(values(scalars@), indices(bases@), bases@.len()),
        ),
{
    let ghost m = order::<G>() as int;
    let ghost svals = values(scalars@);
    let ghost pidx = indices(bases@);
    let n = bases.len();
    proof {
        lemma_order_positive::<G>();
    }
    // the scalars, spelled out
    let mut reprs: Vec<[u8; 32]> = Vec::new();
    let mut i: usize = 0;
    while i < n
        invariant
            i <= n,
            n == scalars@.len(),
            reprs@.len() == i,
            forall|j: int| 0 <= j < i ==> le_value((#[trigger] reprs@[j])@) == scalars@[j].value(),
        decreases n - i,
    {
        reprs.push(scalars[i].to_bytes());
        i = i + 1;
    }
    proof {
        assert(svals =~= Seq::new(reprs@.len(), |i: int| le_value(reprs@[i]@)));
    }
    let width = window_width(n);
    let mut offset: usize = 256;
    let zero = G::identity();
    let mut acc = zero;
    proof {
        assert forall|j: int| 0 <= j < n implies #[trigger] svals[j] < pow2(256) by {
            lemma_le_value_bound(reprs@[j]@);
        }
        lemma_high_sum_top(svals, pidx, 256, n as nat);
        lemma_small_mod(0, m as nat);
    }
    while offset > 0
        invariant
            offset <= 256,
            offset % width == 0,
            width == 2 || width == 4 || width == 8,
            n == bases@.len(),
            n == reprs@.len(),
            m == order::<G>(),
            m > 0,
            pidx == indices(bases@),
            svals == Seq::new(reprs@.len(), |i: int| le_value(reprs@[i]@)),
            zero.encoding() == G::multiple(0),
            acc.encoding() == G::multiple(high_sum(svals, pidx, offset as nat, n as nat) % (m as nat)),
        decreases offset,
    {
        let ghost above = high_sum(svals, pidx, offset as nat, n as nat);
        offset = offset - width;
        let doubled = double_times(&acc, &zero, width, Ghost(above % (m as nat)));
        let round = window_round(bases, &reprs, &zero, offset, width);
        proof {
            let here = window_sum(svals, pidx, offset as nat, width as nat, n as nat) as int;
            lemma_high_sum_step(svals, pidx, offset as nat, width as nat, n as nat);
            lemma_mul_mod_noop_right(pow2(width as nat) as int, above as int, m);
            lemma_add_mod_noop((pow2(width as nat) * above) as int, here, m);
        }
        acc = add_multiples(
            &doubled,
            &round,
            Ghost((pow2(width as nat) * (above % (m as nat))) % (m as nat)),
            Ghost(
                window_sum(svals, pidx, offset as nat, width as nat, n as nat) % (m as nat),
            ),
        );
    }
    proof {
        lemma_naive_is_sum::<G>(svals, pidx, n as nat);
    }
    acc
}

/// The sum of `scalars[i]` times `bases[i]` over all `i`.
///
/// The result is the element that the accumulate-and-add loop reaches, to
/// the byte; for no pairs it is the neutral element. Sequences of
/// different lengths are refused.
pub fn cpu_best_msm<G: DlogGroup>(bases: &[G], scalars: &[G::Scalar]) -> (r: Result<G, NovaError>)
    ensures
        bases@.len() != scalars@.len() ==> r == Err::<G, NovaError>(NovaError::InvalidInputLength),
        bases@.len() == scalars@.len() ==> r is Ok && r->Ok_0.encoding() == G::multiple(
            naive_accumulate::<G>(values(scalars@), indices(bases@), bases@.len()),
        ),
{
    if bases.len() != scalars.len() {
        Err(NovaError::InvalidInputLength)
    } else {
        Ok(msm_serial(bases, scalars))
    }
}

/// The element `p` taken as often as the scalar `s` says.
pub fn scalar_mul<G: DlogGroup>(p: &G, s: &G::Scalar) -> (r: G)
    ensures
        r.encoding() == G::multiple(group_mul::<G>(s.value(), p.index())),
{
    let mut bases: Vec<G> = Vec::new();
    bases.push(*p);
    let mut scalars: Vec<G::Scalar> = Vec::new();
    scalars.push(*s);
    let r = msm_serial(bases.as_slice(), scalars.as_slice());
    proof {
        let svals = values(scalars@);
        let pidx = indices(bases@);
        lemma_order_positive::<G>();
        assert(naive_accumulate::<G>(svals, pidx, 0) == 0);
        assert(naive_accumulate::<G>(svals, pidx, 1) == group_add::<G>(
            0,
            group_mul::<G>(svals[0], pidx[0]),
        ));
        lemma_mod_twice((s.value() * p.index()) as int, order::<G>() as int);
    }
    r
}

/// The same sum, computed part by part: the pairs are cut into `parts`
/// runs of equal length (and a shorter last one), each run is summed by the
/// bucket method on its own, and the sums are added up.
///
/// The result does not depend on `parts`: it is what [`cpu_best_msm`]
/// returns.
pub fn cpu_msm_in_parts<G: DlogGroup>(bases: &[G], scalars: &[G::Scalar], parts: usize) -> (r: Result<
    G,
    NovaError,
>)
    ensures
        bases@.len() != scalars@.len() ==> r == Err::<G, NovaError>(NovaError::InvalidInputLength),
        bases@.len() == scalars@.len() ==> r is Ok && r->Ok_0.encoding() == G::multiple(
            naive_accumulate::<G>(values(scalars@), indices(bases@), bases@.len()),
        ),
{
    let n = bases.len();
    if n != scalars.len() {
        return Err(NovaError::InvalidInputLength);
    }
    if parts == 0 || n <= parts {
        return Ok(msm_serial(bases, scalars));
    }
    let run = n / parts;
    let ghost m = order::<G>() as int;
    let ghost svals = values(scalars@);
    let ghost pidx = indices(bases@);
    let mut acc = G::identity();
    let mut start: usize = 0;
    proof {
        lemma_order_positive::<G>();
        lemma_small_mod(0, m as nat);
        lemma_div_non_zero(n as int, parts as int);
    }
    while start < n
        invariant
            start <= n,
            run >= 1,
            n == bases@.len(),
            n == scalars@.len(),
            svals == values(scalars@),
            pidx == indices(bases@),
            acc.encoding() == G::multiple(naive_accumulate::<G>(svals, pidx, start as nat)),
        decreases n - start,
    {
        let end = if n - start < run {
            n
        } else {
            start + run
        };
        let some_bases = vstd::slice::slice_subrange(bases, start, end);
        let some_scalars = vstd::slice::slice_subrange(scalars, start, end);
        let part = msm_serial(some_bases, some_scalars);
        proof {
            lemma_accumulate_splits::<G>(svals, pidx, start as nat, end as nat);
            assert(values(some_scalars@) =~= svals.subrange(start as int, end as int));
            assert(indices(some_bases@) =~= pidx.subrange(start as int, end as int));
        }
        acc = add_multiples(
            &acc,
            &part,
            Ghost(naive_accumulate::<G>(svals, pidx, start as nat)),
            Ghost(
                naive_accumulate::<G>(
                    svals.subrange(start as int, end as int),
                    pidx.subrange(start as int, end as int),
                    (end - start) as nat,
                ),
            ),
        );
        start = end;
    }
    Ok(acc)
}

} // verus!
