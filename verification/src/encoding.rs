//! Fixed-width little-endian encodings of unsigned integers.
//!
//! Every numeric field that takes part in a hash is written least significant
//! byte first, in exactly as many bytes as its type has. The numeric reading
//! of a hash, which the proof-of-work test compares against the difficulty
//! target, is the inverse of that encoding applied to the hash's leading
//! sixteen bytes.

use vstd::prelude::*;

verus! {

/// How many leading bytes of a hash make up its numeric reading.
pub const DIFFICULTY_PREFIX_LEN: usize = 16;

/// The little-endian encoding of `value` in exactly `width` bytes. Bits of
/// `value` beyond the width are dropped.
pub open spec fn le_bytes(value: nat, width: nat) -> Seq<u8>
    decreases width,
{
    if width == 0 {
        Seq::empty()
    } else {
        seq![(value % 256) as u8] + le_bytes(value / 256, (width - 1) as nat)
    }
}

/// The number that `bytes` encodes when read least significant byte first.
pub open spec fn le_value(bytes: Seq<u8>) -> nat
    decreases bytes.len(),
{
    if bytes.len() == 0 {
        0
    } else {
        bytes[0] as nat + 256 * le_value(bytes.drop_first())
    }
}

/// `256` to the power `n`.
pub open spec fn pow256(n: nat) -> nat
    decreases n,
{
    if n == 0 {
        1
    } else {
        256 * pow256((n - 1) as nat)
    }
}

/// An encoding has exactly the requested width.
pub proof fn lemma_le_bytes_len(value: nat, width: nat)
    ensures
        le_bytes(value, width).len() == width,
    decreases width,
{
    if width > 0 {
        lemma_le_bytes_len(value / 256, (width - 1) as nat);
    }
}

/// A byte string's value lies below `256` to the power of its length.
pub proof fn lemma_le_value_bound(bytes: Seq<u8>)
    ensures
        le_value(bytes) < pow256(bytes.len()),
    decreases bytes.len(),
{
    if bytes.len() > 0 {
        lemma_le_value_bound(bytes.drop_first());
    }
}

/// Decoding undoes encoding: reading back the `width`-byte encoding of
/// `value` gives `value` reduced modulo `256` to the power `width`.
pub proof fn lemma_le_round_trip(value: nat, width: nat)
    ensures
        le_value(le_bytes(value, width)) == value % pow256(width),
    decreases width,
{
    if width == 0 {
    } else {
        let rest = le_bytes(value / 256, (width - 1) as nat);
        let whole = le_bytes(value, width);
        lemma_le_round_trip(value / 256, (width - 1) as nat);
        assert(whole.drop_first() =~= rest);
        let p = pow256((width - 1) as nat);
        lemma_pow256_positive((width - 1) as nat);
        lemma_mod_split(value, p);
    }
}

/// Every power of `256` is positive.
pub proof fn lemma_pow256_positive(n: nat)
    ensures
        pow256(n) > 0,
    decreases n,
{
    if n > 0 {
        lemma_pow256_positive((n - 1) as nat);
    }
}

/// Reducing modulo `256 * p` splits into the lowest byte and the rest
/// reduced modulo `p`.
proof fn lemma_mod_split(value: nat, p: nat)
    requires
        p > 0,
    ensures
        value % (256 * p) == value % 256 + 256 * ((value / 256) % p),
{
    let q = value / 256;
    let r = value % 256;
    let hi = q / p;
    let lo = q % p;
    assert(value == 256 * q + r);
    assert(q == p * hi + lo) by (nonlinear_arith)
        requires
            p > 0,
            hi == q / p,
            lo == q % p,
    ;
    assert(0 <= lo < p);
    let low = r + 256 * lo;
    assert(value == (256 * p) * hi + low) by (nonlinear_arith)
        requires
            value == 256 * q + r,
            q == p * hi + lo,
            low == r + 256 * lo,
    ;
    assert(0 <= low < 256 * p);
    assert(value % (256 * p) == low) by (nonlinear_arith)
        requires
            value == (256 * p) * hi + low,
            0 <= low < 256 * p,
            p > 0,
    ;
}

/// Appends the `width`-byte little-endian encoding of `value` to `out`.
pub fn push_le_bytes(out: &mut Vec<u8>, value: u128, width: usize)
    ensures
        final(out)@ == old(out)@ + le_bytes(value as nat, width as nat),
{
    let mut rest: u128 = value;
    let mut done: usize = 0;
    while done < width
        invariant
            done <= width,
            out@ + le_bytes(rest as nat, (width - done) as nat) == old(out)@ + le_bytes(
                value as nat,
                width as nat,
            ),
        decreases width - done,
    {
        let ghost before = out@;
        let low: u8 = (rest % 256) as u8;
        out.push(low);
        proof {
            let tail = le_bytes((rest / 256) as nat, (width - done - 1) as nat);
            assert(before.push(low) + tail =~= before + (seq![low] + tail));
        }
        rest = rest / 256;
        done = done + 1;
    }
}

/// The four-byte little-endian encoding of `value`.
pub fn u32_bytes(value: u32) -> (out: Vec<u8>)
    ensures
        out@ == le_bytes(value as nat, 4),
{
    let mut out: Vec<u8> = Vec::new();
    push_le_bytes(&mut out, value as u128, 4);
    out
}

/// The eight-byte little-endian encoding of `value`.
pub fn u64_bytes(value: u64) -> (out: Vec<u8>)
    ensures
        out@ == le_bytes(value as nat, 8),
{
    let mut out: Vec<u8> = Vec::new();
    push_le_bytes(&mut out, value as u128, 8);
    out
}

/// The sixteen-byte little-endian encoding of `value`.
pub fn u128_bytes(value: u128) -> (out: Vec<u8>)
    ensures
        out@ == le_bytes(value as nat, 16),
{
    let mut out: Vec<u8> = Vec::new();
    push_le_bytes(&mut out, value, 16);
    out
}

/// The numeric reading of a hash: its first sixteen bytes, read least
/// significant byte first.
pub open spec fn hash_value(hash: Seq<u8>) -> nat {
    le_value(hash.subrange(0, DIFFICULTY_PREFIX_LEN as int))
}

/// The numeric reading inverts the sixteen-byte encoding: a hash that
/// begins with the encoding of `value` reads as `value`, whatever follows.
pub proof fn lemma_hash_value_of_encoding(value: u128, rest: Seq<u8>)
    ensures
        hash_value(le_bytes(value as nat, 16) + rest) == value,
{
    let head = le_bytes(value as nat, 16);
    lemma_le_bytes_len(value as nat, 16);
    assert((head + rest).subrange(0, DIFFICULTY_PREFIX_LEN as int) =~= head);
    lemma_le_round_trip(value as nat, 16);
    lemma_pow256_sixteen();
}

/// Computes the numeric reading of `hash`. The hash must hold at least the
/// sixteen bytes that are read.
pub fn difficulty_bytes_as_u128(hash: &Vec<u8>) -> (value: u128)
    requires
        hash@.len() >= DIFFICULTY_PREFIX_LEN,
    ensures
        value == hash_value(hash@),
{
    let ghost prefix = hash@.subrange(0, DIFFICULTY_PREFIX_LEN as int);
    let mut value: u128 = 0;
    let mut at: usize = DIFFICULTY_PREFIX_LEN;
    while at > 0
        invariant
            at <= DIFFICULTY_PREFIX_LEN <= hash@.len(),
            prefix == hash@.subrange(0, DIFFICULTY_PREFIX_LEN as int),
            value == le_value(prefix.subrange(at as int, DIFFICULTY_PREFIX_LEN as int)),
        decreases at,
    {
        at = at - 1;
        proof {
            let upper = prefix.subrange(at + 1, DIFFICULTY_PREFIX_LEN as int);
            let whole = prefix.subrange(at as int, DIFFICULTY_PREFIX_LEN as int);
            assert(whole.drop_first() =~= upper);
            assert(whole[0] == hash@[at as int]);
            lemma_le_value_bound(whole);
            lemma_pow256_monotonic(whole.len(), DIFFICULTY_PREFIX_LEN as nat);
            lemma_pow256_sixteen();
        }
        value = value * 256 + hash[at] as u128;
    }
    proof {
        assert(prefix.subrange(0, DIFFICULTY_PREFIX_LEN as int) =~= prefix);
    }
    value
}

/// Powers of `256` grow with the exponent.
pub proof fn lemma_pow256_monotonic(m: nat, n: nat)
    requires
        m <= n,
    ensures
        pow256(m) <= pow256(n),
    decreases n,
{
    if m < n {
        lemma_pow256_monotonic(m, (n - 1) as nat);
    }
}

/// Sixteen bytes hold exactly the values of a `u128`.
pub proof fn lemma_pow256_sixteen()
    ensures
        pow256(16) == 0x1_0000_0000_0000_0000_0000_0000_0000_0000,
{
    reveal_with_fuel(pow256, 17);
}

} // verus!
