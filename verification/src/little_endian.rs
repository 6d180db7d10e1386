//! Byte strings read as little-endian numbers, and the windows of bits that
//! the bucket method cuts out of them.

use vstd::prelude::*;
use vstd::arithmetic::div_mod::*;
use vstd::arithmetic::mul::*;
use vstd::arithmetic::power2::*;

verus! {

/// The number that `bytes` spells, least significant byte first.
pub open spec fn le_value(bytes: Seq<u8>) -> nat
    decreases bytes.len(),
{
    if bytes.len() == 0 {
        0
    } else {
        bytes[0] as nat + 256 * le_value(bytes.drop_first())
    }
}

/// The `width` bits of `v` that start at bit `offset`.
pub open spec fn window(v: nat, offset: nat, width: nat) -> nat {
    (v / pow2(offset)) % pow2(width)
}

/// A number spelled by `n` bytes is below `2^(8n)`.
pub proof fn lemma_le_value_bound(bytes: Seq<u8>)
    ensures
        le_value(bytes) < pow2(8 * bytes.len()),
    decreases bytes.len(),
{
    if bytes.len() == 0 {
        lemma2_to64();
    } else {
        let rest = bytes.drop_first();
        lemma_le_value_bound(rest);
        lemma_pow2_adds(8, 8 * rest.len());
        lemma2_to64();
        assert(8 * bytes.len() == 8 + 8 * rest.len());
        assert(bytes[0] as nat + 256 * le_value(rest) < 256 * pow2(8 * rest.len())) by (nonlinear_arith)
            requires
                bytes[0] < 256,
                le_value(rest) < pow2(8 * rest.len()),
        ;
    }
}

/// The bytes before position `k` are the low part of the number and the
/// bytes from `k` on the high part.
pub proof fn lemma_le_value_split(bytes: Seq<u8>, k: int)
    requires
        0 <= k <= bytes.len(),
    ensures
        le_value(bytes) == le_value(bytes.take(k)) + pow2((8 * k) as nat) * le_value(bytes.skip(k)),
    decreases k,
{
    if k == 0 {
        lemma2_to64();
        assert(bytes.skip(0) =~= bytes);
        assert(bytes.take(0).len() == 0);
        assert(le_value(bytes.take(0)) == 0);
        assert(pow2(0) * le_value(bytes) == le_value(bytes)) by (nonlinear_arith)
            requires
                pow2(0) == 1,
        ;
    } else {
        let rest = bytes.drop_first();
        lemma_le_value_split(rest, k - 1);
        assert(rest.take(k - 1) =~= bytes.take(k).drop_first());
        assert(rest.skip(k - 1) =~= bytes.skip(k));
        assert(bytes.take(k)[0] == bytes[0]);
        lemma_pow2_adds(8, (8 * (k - 1)) as nat);
        lemma2_to64();
        assert((8 * k) as nat == 8 + (8 * (k - 1)) as nat);
        let hi = le_value(bytes.skip(k));
        let lo = le_value(rest.take(k - 1));
        let p = pow2((8 * (k - 1)) as nat);
        assert(256 * (lo + p * hi) == 256 * lo + (256 * p) * hi) by (nonlinear_arith);
        assert(le_value(rest) == lo + p * hi);
        assert(le_value(bytes) == bytes[0] as nat + 256 * le_value(rest));
        assert(le_value(bytes.take(k)) == bytes[0] as nat + 256 * lo);
        assert(pow2((8 * k) as nat) == 256 * p);
        assert(pow2((8 * k) as nat) * hi == (256 * p) * hi);
    }
}

/// The `len` bytes that spell the low `8 * len` bits of `v`, least
/// significant byte first.
pub open spec fn le_bytes(v: nat, len: nat) -> Seq<u8>
    decreases len,
{
    if len == 0 {
        Seq::empty()
    } else {
        seq![(v % 256) as u8] + le_bytes(v / 256, (len - 1) as nat)
    }
}

/// Spelling the number that bytes spell gives the bytes back.
pub proof fn lemma_le_bytes_of_value(bytes: Seq<u8>)
    ensures
        le_bytes(le_value(bytes), bytes.len()) == bytes,
    decreases bytes.len(),
{
    if bytes.len() > 0 {
        let rest = bytes.drop_first();
        lemma_le_bytes_of_value(rest);
        let v = le_value(bytes);
        assert(v % 256 == bytes[0] && v / 256 == le_value(rest)) by {
            lemma_fundamental_div_mod_converse(
                v as int,
                256,
                le_value(rest) as int,
                bytes[0] as int,
            );
        }
        assert(bytes =~= seq![bytes[0]] + rest);
    } else {
        assert(bytes =~= Seq::<u8>::empty());
    }
}

/// A single byte spells itself.
pub proof fn lemma_le_value_single(b: u8)
    ensures
        le_value(seq![b]) == b,
{
    assert(seq![b].drop_first().len() == 0);
    assert(le_value(seq![b].drop_first()) == 0);
}

/// Appends `bytes` to `out`.
pub fn append_bytes(out: &mut Vec<u8>, bytes: &[u8])
    ensures
        final(out)@ == old(out)@ + bytes@,
{
    let mut i: usize = 0;
    while i < bytes.len()
        invariant
            i <= bytes@.len(),
            out@ == old(out)@ + bytes@.subrange(0, i as int),
        decreases bytes@.len() - i,
    {
        out.push(bytes[i]);
        proof {
            assert(out@ =~= old(out)@ + bytes@.subrange(0, i + 1));
        }
        i = i + 1;
    }
    proof {
        assert(bytes@.subrange(0, i as int) =~= bytes@);
    }
}

/// Appends the eight bytes that spell `n`.
pub fn append_count(out: &mut Vec<u8>, n: usize)
    ensures
        final(out)@ == old(out)@ + le_bytes(n as nat, 8),
{
    let mut rest = n;
    let mut i: usize = 0;
    while i < 8
        invariant
            i <= 8,
            out@ + le_bytes(rest as nat, (8 - i) as nat) == old(out)@ + le_bytes(n as nat, 8),
        decreases 8 - i,
    {
        let ghost before = out@;
        out.push((rest % 256) as u8);
        proof {
            assert(before + le_bytes(rest as nat, (8 - i) as nat) =~= out@ + le_bytes(
                (rest / 256) as nat,
                (8 - i - 1) as nat,
            ));
        }
        rest = rest / 256;
        i = i + 1;
    }
    proof {
        assert(out@ + le_bytes(rest as nat, 0) =~= out@);
    }
}

/// Bytes that are all zero spell zero.
pub proof fn lemma_le_value_zeros(bytes: Seq<u8>)
    requires
        forall|i: int| 0 <= i < bytes.len() ==> bytes[i] == 0,
    ensures
        le_value(bytes) == 0,
    decreases bytes.len(),
{
    if bytes.len() > 0 {
        lemma_le_value_zeros(bytes.drop_first());
    }
}

/// Byte strings of one length that spell the same number are the same.
pub proof fn lemma_le_value_injective(a: Seq<u8>, b: Seq<u8>)
    requires
        a.len() == b.len(),
        le_value(a) == le_value(b),
    ensures
        a == b,
    decreases a.len(),
{
    if a.len() > 0 {
        let x = le_value(a.drop_first()) as int;
        let y = le_value(b.drop_first()) as int;
        assert(a[0] == b[0] && x == y) by (nonlinear_arith)
            requires
                a[0] as int + 256 * x == b[0] as int + 256 * y,
                0 <= a[0] < 256,
                0 <= b[0] < 256,
        ;
        lemma_le_value_injective(a.drop_first(), b.drop_first());
        assert(a =~= seq![a[0]] + a.drop_first());
        assert(b =~= seq![b[0]] + b.drop_first());
    } else {
        assert(a =~= b);
    }
}

/// Whether two encodings are the same, byte for byte.
pub fn bytes_equal(a: &[u8; 32], b: &[u8; 32]) -> (r: bool)
    ensures
        r == (a@ == b@),
{
    let mut i: usize = 0;
    while i < 32
        invariant
            i <= 32,
            forall|j: int| 0 <= j < i ==> a@[j] == b@[j],
        decreases 32 - i,
    {
        if a[i] != b[i] {
            return false;
        }
        i = i + 1;
    }
    proof {
        assert(a@ =~= b@);
    }
    true
}

/// A window that lies inside one byte of a number can be read from that
/// byte alone.
pub proof fn lemma_window_in_byte(bytes: Seq<u8>, j: int, shift: nat, width: nat)
    requires
        0 <= j < bytes.len(),
        shift + width <= 8,
    ensures
        window(le_value(bytes), (8 * j + shift) as nat, width) == (bytes[j] as nat / pow2(shift))
            % pow2(width),
{
    let v = le_value(bytes);
    let lo = le_value(bytes.take(j));
    let x = le_value(bytes.skip(j));
    let rest = le_value(bytes.skip(j).drop_first());
    let b = bytes[j] as nat;
    let pj = pow2((8 * j) as nat);
    let ps = pow2(shift);
    let pw = pow2(width);
    let q = pow2((8 - shift - width) as nat);
    lemma_le_value_split(bytes, j);
    lemma_le_value_bound(bytes.take(j));
    lemma_pow2_pos((8 * j) as nat);
    lemma_pow2_pos(shift);
    lemma_pow2_pos(width);
    lemma_pow2_adds((8 * j) as nat, shift);
    lemma_pow2_adds(shift, width);
    lemma_pow2_adds(shift + width, (8 - shift - width) as nat);
    lemma2_to64();
    assert(bytes.skip(j)[0] == bytes[j]);
    assert(x == b + 256 * rest);
    assert(ps * pw * q == 256);
    // v / 2^(8j) is the high part
    assert(v == x * pj + lo) by (nonlinear_arith)
        requires
            v == lo + pj * x,
    ;
    lemma_fundamental_div_mod_converse(v as int, pj as int, x as int, lo as int);
    assert(v / pj == x);
    // dividing by 2^(8j + shift) is dividing twice
    lemma_div_denominator(v as int, pj as int, ps as int);
    assert(v / (pj * ps) == x / ps);
    // the bytes above contribute a multiple of 2^width
    assert(x == ps * (pw * q * rest) + b) by (nonlinear_arith)
        requires
            x == b + 256 * rest,
            ps * pw * q == 256,
    ;
    lemma_div_multiples_vanish_fancy((pw * q * rest) as int, b as int % (ps as int), ps as int);
    lemma_fundamental_div_mod(b as int, ps as int);
    assert(x / ps == pw * q * rest + b / ps) by {
        let bq = b / ps;
        let br = b % ps;
        lemma_mod_bound(b as int, ps as int);
        assert(x == (pw * q * rest + bq) * ps + br) by (nonlinear_arith)
            requires
                x == ps * (pw * q * rest) + b,
                b == ps * bq + br,
        ;
        lemma_fundamental_div_mod_converse(x as int, ps as int, (pw * q * rest + bq) as int, br as int);
    }
    assert(pw * q * rest == pw * (q * rest)) by (nonlinear_arith);
    lemma_mod_multiples_vanish((q * rest) as int, (b / ps) as int, pw as int);
    assert((pw * (q * rest) + b / ps) % pw == (b / ps) % pw) by {
        assert(pw * (q * rest) + b / ps == pw as int * (q * rest) as int + (b / ps) as int);
    }
}

/// Cutting `width` bits off at `offset` leaves the bits above them, scaled.
pub proof fn lemma_window_step(v: nat, offset: nat, width: nat)
    ensures
        v / pow2(offset) == pow2(width) * (v / pow2(offset + width)) + window(v, offset, width),
{
    lemma_pow2_pos(offset);
    lemma_pow2_pos(width);
    lemma_pow2_adds(offset, width);
    lemma_div_denominator(v as int, pow2(offset) as int, pow2(width) as int);
    lemma_fundamental_div_mod((v / pow2(offset)) as int, pow2(width) as int);
}

} // verus!
