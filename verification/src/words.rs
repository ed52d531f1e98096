//! Arithmetic on cipher words.
//!
//! A Speck word of `wbits` bits is carried in a `u64` whose bits above
//! `wbits` are zero (`x & m == x` for the variant's mask `m`). Addition and
//! subtraction are modulo `2^wbits`; rotations act on the low `wbits` bits.
//! The encryption round and its algebraic inverse are stated here, and the
//! inverse is proved round-for-round for every word size the cipher family
//! uses.

use vstd::prelude::*;

verus! {

/// The masks and rotation constants of the Speck family: word sizes 16, 24,
/// 32, 48 and 64 bits; rotations (7, 2) for 16-bit words, (8, 3) otherwise.
pub open spec fn round_params_wf(alpha: u64, beta: u64, wbits: u64, m: u64) -> bool {
    &&& (wbits == 16 ==> alpha == 7 && beta == 2)
    &&& (wbits != 16 ==> alpha == 8 && beta == 3)
    &&& ((wbits == 16 && m == 0xFFFF)
        || (wbits == 24 && m == 0xFF_FFFF)
        || (wbits == 32 && m == 0xFFFF_FFFF)
        || (wbits == 48 && m == 0xFFFF_FFFF_FFFF)
        || (wbits == 64 && m == 0xFFFF_FFFF_FFFF_FFFF))
}

/// A value carried in a `u64` is a word of the masked width.
pub open spec fn in_range(x: u64, m: u64) -> bool {
    x & m == x
}

/// Addition modulo `2^wbits`, for operands already in range.
pub open spec fn w_add(x: u64, y: u64, m: u64) -> u64 {
    vstd::wrapping::u64_specs::wrapping_add(x, y) & m
}

/// Subtraction modulo `2^wbits`, for operands already in range.
pub open spec fn w_sub(x: u64, y: u64, m: u64) -> u64 {
    vstd::wrapping::u64_specs::wrapping_sub(x, y) & m
}

/// Rotation of the low `wbits` bits left by `n`, for `0 < n < wbits`.
pub open spec fn w_rotl(x: u64, n: u64, wbits: u64, m: u64) -> u64 {
    ((x << n) | (x >> ((wbits - n) as u64))) & m
}

/// Rotation of the low `wbits` bits right by `n`, for `0 < n < wbits`.
pub open spec fn w_rotr(x: u64, n: u64, wbits: u64, m: u64) -> u64 {
    ((x >> n) | (x << ((wbits - n) as u64))) & m
}

/// The new left word of one encryption round:
/// `x' = ((x >>> alpha) + y) ^ rk`.
pub open spec fn enc_round_x(x: u64, y: u64, rk: u64, alpha: u64, wbits: u64, m: u64) -> u64 {
    (w_add(w_rotr(x, alpha, wbits, m), y, m) ^ rk) & m
}

/// The new right word of one encryption round: `y' = (y <<< beta) ^ x'`.
pub open spec fn enc_round_y(x1: u64, y: u64, beta: u64, wbits: u64, m: u64) -> u64 {
    (w_rotl(y, beta, wbits, m) ^ x1) & m
}

/// The right word recovered by one decryption round:
/// `y = (y' ^ x') >>> beta`.
pub open spec fn dec_round_y(x: u64, y: u64, beta: u64, wbits: u64, m: u64) -> u64 {
    w_rotr((y ^ x) & m, beta, wbits, m)
}

/// The left word recovered by one decryption round:
/// `x = ((x' ^ rk) - y) <<< alpha`.
pub open spec fn dec_round_x(x: u64, y0: u64, rk: u64, alpha: u64, wbits: u64, m: u64) -> u64 {
    w_rotl(w_sub((x ^ rk) & m, y0, m), alpha, wbits, m)
}

/// Masking is idempotent, so every round output is in range.
pub proof fn lemma_mask_idempotent(a: u64, m: u64)
    ensures
        in_range(a & m, m),
{
    assert((a & m) & m == (a & m)) by (bit_vector);
}

/// A word is in range exactly when it is at most the mask.
pub proof fn lemma_in_range_bound(x: u64, wbits: u64, m: u64)
    requires
        (wbits == 16 && m == 0xFFFF)
            || (wbits == 24 && m == 0xFF_FFFF)
            || (wbits == 32 && m == 0xFFFF_FFFF)
            || (wbits == 48 && m == 0xFFFF_FFFF_FFFF)
            || (wbits == 64 && m == 0xFFFF_FFFF_FFFF_FFFF),
    ensures
        in_range(x, m) <==> x <= m,
{
    if m == 0xFFFF {
        assert((x & 0xFFFFu64 == x) <==> x <= 0xFFFFu64) by (bit_vector);
    } else if m == 0xFF_FFFF {
        assert((x & 0xFF_FFFFu64 == x) <==> x <= 0xFF_FFFFu64) by (bit_vector);
    } else if m == 0xFFFF_FFFF {
        assert((x & 0xFFFF_FFFFu64 == x) <==> x <= 0xFFFF_FFFFu64) by (bit_vector);
    } else if m == 0xFFFF_FFFF_FFFF {
        assert((x & 0xFFFF_FFFF_FFFFu64 == x) <==> x <= 0xFFFF_FFFF_FFFFu64) by (bit_vector);
    } else {
        assert(x & 0xFFFF_FFFF_FFFF_FFFFu64 == x) by (bit_vector);
    }
}

/// One decryption round undoes one encryption round, for every word size of
/// the family.
pub proof fn lemma_round_inverse(x: u64, y: u64, rk: u64, alpha: u64, beta: u64, wbits: u64, m: u64)
    requires
        round_params_wf(alpha, beta, wbits, m),
        in_range(x, m),
        in_range(y, m),
        in_range(rk, m),
    ensures
        dec_round_y(
            enc_round_x(x, y, rk, alpha, wbits, m),
            enc_round_y(enc_round_x(x, y, rk, alpha, wbits, m), y, beta, wbits, m),
            beta,
            wbits,
            m,
        ) == y,
        dec_round_x(enc_round_x(x, y, rk, alpha, wbits, m), y, rk, alpha, wbits, m) == x,
{
    if wbits == 16 {
        assert(dec_round_y(enc_round_x(x, y, rk, 7, 16, 0xFFFF),
                enc_round_y(enc_round_x(x, y, rk, 7, 16, 0xFFFF), y, 2, 16, 0xFFFF),
                2, 16, 0xFFFF) == y
            && dec_round_x(enc_round_x(x, y, rk, 7, 16, 0xFFFF), y, rk, 7, 16, 0xFFFF) == x)
            by (bit_vector)
            requires
                x & 0xFFFFu64 == x,
                y & 0xFFFFu64 == y,
                rk & 0xFFFFu64 == rk,
        ;
    } else if wbits == 24 {
        assert(dec_round_y(enc_round_x(x, y, rk, 8, 24, 0xFF_FFFF),
                enc_round_y(enc_round_x(x, y, rk, 8, 24, 0xFF_FFFF), y, 3, 24, 0xFF_FFFF),
                3, 24, 0xFF_FFFF) == y
            && dec_round_x(enc_round_x(x, y, rk, 8, 24, 0xFF_FFFF), y, rk, 8, 24, 0xFF_FFFF) == x)
            by (bit_vector)
            requires
                x & 0xFF_FFFFu64 == x,
                y & 0xFF_FFFFu64 == y,
                rk & 0xFF_FFFFu64 == rk,
        ;
    } else if wbits == 32 {
        assert(dec_round_y(enc_round_x(x, y, rk, 8, 32, 0xFFFF_FFFF),
                enc_round_y(enc_round_x(x, y, rk, 8, 32, 0xFFFF_FFFF), y, 3, 32, 0xFFFF_FFFF),
                3, 32, 0xFFFF_FFFF) == y
            && dec_round_x(enc_round_x(x, y, rk, 8, 32, 0xFFFF_FFFF), y, rk, 8, 32, 0xFFFF_FFFF)
                == x)
            by (bit_vector)
            requires
                x & 0xFFFF_FFFFu64 == x,
                y & 0xFFFF_FFFFu64 == y,
                rk & 0xFFFF_FFFFu64 == rk,
        ;
    } else if wbits == 48 {
        assert(dec_round_y(enc_round_x(x, y, rk, 8, 48, 0xFFFF_FFFF_FFFF),
                enc_round_y(enc_round_x(x, y, rk, 8, 48, 0xFFFF_FFFF_FFFF), y, 3, 48,
                    0xFFFF_FFFF_FFFF),
                3, 48, 0xFFFF_FFFF_FFFF) == y
            && dec_round_x(enc_round_x(x, y, rk, 8, 48, 0xFFFF_FFFF_FFFF), y, rk, 8, 48,
                0xFFFF_FFFF_FFFF) == x)
            by (bit_vector)
            requires
                x & 0xFFFF_FFFF_FFFFu64 == x,
                y & 0xFFFF_FFFF_FFFFu64 == y,
                rk & 0xFFFF_FFFF_FFFFu64 == rk,
        ;
    } else {
        assert(dec_round_y(enc_round_x(x, y, rk, 8, 64, 0xFFFF_FFFF_FFFF_FFFF),
                enc_round_y(enc_round_x(x, y, rk, 8, 64, 0xFFFF_FFFF_FFFF_FFFF), y, 3, 64,
                    0xFFFF_FFFF_FFFF_FFFF),
                3, 64, 0xFFFF_FFFF_FFFF_FFFF) == y
            && dec_round_x(enc_round_x(x, y, rk, 8, 64, 0xFFFF_FFFF_FFFF_FFFF), y, rk, 8, 64,
                0xFFFF_FFFF_FFFF_FFFF) == x)
            by (bit_vector)
            requires
                x & 0xFFFF_FFFF_FFFF_FFFFu64 == x,
                y & 0xFFFF_FFFF_FFFF_FFFFu64 == y,
                rk & 0xFFFF_FFFF_FFFF_FFFFu64 == rk,
        ;
    }
}

/// One encryption round, executable.
pub fn enc_round_exec(x: u64, y: u64, rk: u64, alpha: u64, beta: u64, wbits: u64, m: u64) -> (r: (
    u64,
    u64,
))
    requires
        0 < alpha < wbits <= 64,
        0 < beta < wbits,
    ensures
        r.0 == enc_round_x(x, y, rk, alpha, wbits, m),
        r.1 == enc_round_y(enc_round_x(x, y, rk, alpha, wbits, m), y, beta, wbits, m),
{
    let xr: u64 = ((x >> alpha) | (x << (wbits - alpha))) & m;
    let x1: u64 = ((xr.wrapping_add(y) & m) ^ rk) & m;
    let yr: u64 = ((y << beta) | (y >> (wbits - beta))) & m;
    let y1: u64 = (yr ^ x1) & m;
    (x1, y1)
}

/// One decryption round, executable.
pub fn dec_round_exec(x: u64, y: u64, rk: u64, alpha: u64, beta: u64, wbits: u64, m: u64) -> (r: (
    u64,
    u64,
))
    requires
        0 < alpha < wbits <= 64,
        0 < beta < wbits,
    ensures
        r.0 == dec_round_x(x, dec_round_y(x, y, beta, wbits, m), rk, alpha, wbits, m),
        r.1 == dec_round_y(x, y, beta, wbits, m),
{
    let yx: u64 = (y ^ x) & m;
    let y0: u64 = ((yx >> beta) | (yx << (wbits - beta))) & m;
    let xk: u64 = (x ^ rk) & m;
    let x0s: u64 = xk.wrapping_sub(y0) & m;
    let x0: u64 = ((x0s << alpha) | (x0s >> (wbits - alpha))) & m;
    (x0, y0)
}

} // verus!
