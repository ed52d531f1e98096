//! Big-endian byte strings as unsigned integers, and byte-wise XOR.
//!
//! Speck words, counter blocks and CTR keystream bytes are all stated over
//! these models: `be_val` reads a byte string as a big-endian integer and
//! `be_bytes` writes one back.

use vstd::prelude::*;

verus! {

/// `256^n`.
pub open spec fn pow256(n: nat) -> nat
    decreases n,
{
    if n == 0 {
        1
    } else {
        256 * pow256((n - 1) as nat)
    }
}

/// The value of a byte string read as a big-endian unsigned integer.
pub open spec fn be_val(s: Seq<u8>) -> nat
    decreases s.len(),
{
    if s.len() == 0 {
        0
    } else {
        (be_val(s.drop_last()) * 256 + s.last()) as nat
    }
}

/// The `len`-byte big-endian encoding of `v % 256^len`.
pub open spec fn be_bytes(v: nat, len: nat) -> Seq<u8>
    decreases len,
{
    if len == 0 {
        Seq::empty()
    } else {
        be_bytes(v / 256, (len - 1) as nat).push((v % 256) as u8)
    }
}

/// The byte-wise XOR of two equal-length byte strings.
pub open spec fn xor_bytes(a: Seq<u8>, b: Seq<u8>) -> Seq<u8>
    recommends
        a.len() == b.len(),
{
    Seq::new(a.len(), |i: int| a[i] ^ b[i])
}

pub proof fn lemma_pow256_pos(n: nat)
    ensures
        pow256(n) >= 1,
    decreases n,
{
    if n > 0 {
        lemma_pow256_pos((n - 1) as nat);
    }
}

pub proof fn lemma_pow256_le(a: nat, b: nat)
    requires
        a <= b,
    ensures
        pow256(a) <= pow256(b),
    decreases b,
{
    if a < b {
        lemma_pow256_le(a, (b - 1) as nat);
        lemma_pow256_pos((b - 1) as nat);
    }
}

/// `256^16 == 2^128`, so every value of a byte string of at most 16 bytes
/// fits in a `u128`.
pub proof fn lemma_pow256_16()
    ensures
        pow256(16) == 0x1_0000_0000_0000_0000_0000_0000_0000_0000,
{
    reveal_with_fuel(pow256, 17);
}

pub proof fn lemma_be_val_bound(s: Seq<u8>)
    ensures
        be_val(s) < pow256(s.len()),
    decreases s.len(),
{
    if s.len() > 0 {
        lemma_be_val_bound(s.drop_last());
    }
}

pub proof fn lemma_be_bytes_len(v: nat, len: nat)
    ensures
        be_bytes(v, len).len() == len,
    decreases len,
{
    if len > 0 {
        lemma_be_bytes_len(v / 256, (len - 1) as nat);
    }
}

/// Decoding then re-encoding gives the bytes back.
pub proof fn lemma_be_bytes_of_val(s: Seq<u8>)
    ensures
        be_bytes(be_val(s), s.len()) == s,
    decreases s.len(),
{
    if s.len() > 0 {
        let s0 = s.drop_last();
        lemma_be_bytes_of_val(s0);
        assert(be_val(s) == be_val(s0) * 256 + s.last());
        assert(be_val(s) / 256 == be_val(s0)) by {
            vstd::arithmetic::div_mod::lemma_fundamental_div_mod_converse(
                be_val(s) as int, 256, be_val(s0) as int, s.last() as int);
        }
        assert(be_val(s) % 256 == s.last()) by {
            vstd::arithmetic::div_mod::lemma_fundamental_div_mod_converse(
                be_val(s) as int, 256, be_val(s0) as int, s.last() as int);
        }
        assert(be_bytes(be_val(s), s.len()) =~= s0.push(s.last()));
        assert(s0.push(s.last()) =~= s);
    }
}

/// Encoding then decoding gives the value back, as long as it fits.
pub proof fn lemma_be_val_of_bytes(v: nat, len: nat)
    requires
        v < pow256(len),
    ensures
        be_val(be_bytes(v, len)) == v,
    decreases len,
{
    if len > 0 {
        lemma_be_bytes_len(v / 256, (len - 1) as nat);
        assert(v / 256 < pow256((len - 1) as nat)) by {
            vstd::arithmetic::div_mod::lemma_multiply_divide_lt(
                v as int, 256, pow256((len - 1) as nat) as int);
        }
        lemma_be_val_of_bytes(v / 256, (len - 1) as nat);
        let s = be_bytes(v, len);
        assert(s.drop_last() =~= be_bytes(v / 256, (len - 1) as nat));
        assert(be_val(s) == (v / 256) * 256 + (v % 256));
        assert((v / 256) * 256 + (v % 256) == v) by {
            vstd::arithmetic::div_mod::lemma_fundamental_div_mod(v as int, 256);
        }
    }
}

/// Each byte of the encoding is a digit of the value: byte `i` (big-endian)
/// is `v / 256^(len-1-i) % 256`.
pub proof fn lemma_be_bytes_index(v: nat, len: nat, i: int)
    requires
        0 <= i < len,
    ensures
        be_bytes(v, len).len() == len,
        be_bytes(v, len)[i] == (v / pow256((len - 1 - i) as nat) % 256) as u8,
    decreases len,
{
    lemma_be_bytes_len(v, len);
    lemma_be_bytes_len(v / 256, (len - 1) as nat);
    if i == len - 1 {
        assert(v / pow256(0) == v) by {
            vstd::arithmetic::div_mod::lemma_div_basics_2(v as int);
        }
    } else {
        lemma_be_bytes_index(v / 256, (len - 1) as nat, i);
        lemma_pow256_pos((len - 2 - i) as nat);
        assert((v / 256) / pow256((len - 2 - i) as nat) == v / pow256((len - 1 - i) as nat)) by {
            vstd::arithmetic::div_mod::lemma_div_denominator(
                v as int, 256, pow256((len - 2 - i) as nat) as int);
            assert(256 * pow256((len - 2 - i) as nat) == pow256((len - 1 - i) as nat));
        }
    }
}

/// The encoding only depends on the value modulo `256^len`.
pub proof fn lemma_be_bytes_mod(v: nat, len: nat)
    ensures
        be_bytes(v % pow256(len), len) == be_bytes(v, len),
    decreases len,
{
    if len > 0 {
        let q = pow256((len - 1) as nat);
        lemma_pow256_pos((len - 1) as nat);
        assert(pow256(len) == 256 * q);
        vstd::arithmetic::div_mod::lemma_breakdown(v as int, 256, q as int);
        vstd::arithmetic::div_mod::lemma_mod_bound(v as int, 256);
        vstd::arithmetic::div_mod::lemma_mod_bound((v / 256) as int, q as int);
        vstd::arithmetic::div_mod::lemma_fundamental_div_mod_converse(
            (v % pow256(len)) as int, 256, ((v / 256) % q) as int, (v % 256) as int);
        lemma_be_bytes_mod(v / 256, (len - 1) as nat);
        assert(be_bytes(v % pow256(len), len) =~= be_bytes(v, len));
    }
}

/// Reads at most 16 bytes as a big-endian integer.
pub fn be_val_u128(s: &[u8]) -> (r: u128)
    requires
        s@.len() <= 16,
    ensures
        r as nat == be_val(s@),
{
    let mut acc: u128 = 0;
    let mut i: usize = 0;
    while i < s.len()
        invariant
            0 <= i <= s@.len() <= 16,
            acc as nat == be_val(s@.take(i as int)),
        decreases s@.len() - i,
    {
        proof {
            lemma_be_val_bound(s@.take(i as int));
            lemma_pow256_le((i + 1) as nat, 16);
            lemma_pow256_16();
            assert(s@.take(i + 1).drop_last() =~= s@.take(i as int));
            assert(s@.take(i + 1).last() == s@[i as int]);
        }
        acc = acc * 256 + (s[i] as u128);
        i = i + 1;
    }
    proof {
        assert(s@.take(s@.len() as int) =~= s@);
    }
    acc
}

/// `256^n` as a machine integer, for exponents whose power fits in a `u128`.
pub fn pow256_u128(n: usize) -> (r: u128)
    requires
        n <= 15,
    ensures
        r as nat == pow256(n as nat),
        r >= 1,
{
    let mut acc: u128 = 1;
    let mut i: usize = 0;
    while i < n
        invariant
            0 <= i <= n <= 15,
            acc as nat == pow256(i as nat),
        decreases n - i,
    {
        proof {
            lemma_pow256_le((i + 1) as nat, 15);
            lemma_pow256_le(15, 16);
            lemma_pow256_16();
        }
        acc = acc * 256;
        i = i + 1;
    }
    proof {
        lemma_pow256_pos(n as nat);
    }
    acc
}

/// Writes the `len`-byte big-endian encoding of `v % 256^len`.
pub fn be_bytes_vec(v: u128, len: usize) -> (r: Vec<u8>)
    requires
        len <= 16,
    ensures
        r@ == be_bytes(v as nat, len as nat),
{
    let mut r: Vec<u8> = Vec::new();
    let mut j: usize = 0;
    proof {
        lemma_be_bytes_len(v as nat, len as nat);
    }
    while j < len
        invariant
            0 <= j <= len <= 16,
            be_bytes(v as nat, len as nat).len() == len,
            r@ =~= be_bytes(v as nat, len as nat).take(j as int),
        decreases len - j,
    {
        let p = pow256_u128(len - 1 - j);
        let byte = ((v / p) % 256) as u8;
        proof {
            lemma_be_bytes_index(v as nat, len as nat, j as int);
            assert(be_bytes(v as nat, len as nat).take(j + 1)
                =~= be_bytes(v as nat, len as nat).take(j as int).push(
                    be_bytes(v as nat, len as nat)[j as int]));
        }
        r.push(byte);
        j = j + 1;
    }
    proof {
        assert(be_bytes(v as nat, len as nat).take(len as int) =~= be_bytes(
            v as nat, len as nat));
    }
    r
}

/// XORs two equal-length byte slices.
pub fn xor_slices(a: &[u8], b: &[u8]) -> (r: Vec<u8>)
    requires
        a@.len() == b@.len(),
    ensures
        r@ == xor_bytes(a@, b@),
{
    let mut r: Vec<u8> = Vec::new();
    let mut i: usize = 0;
    while i < a.len()
        invariant
            0 <= i <= a@.len(),
            a@.len() == b@.len(),
            r@ =~= xor_bytes(a@, b@).take(i as int),
        decreases a@.len() - i,
    {
        proof {
            assert(xor_bytes(a@, b@).take(i + 1)
                =~= xor_bytes(a@, b@).take(i as int).push(a@[i as int] ^ b@[i as int]));
        }
        r.push(a[i] ^ b[i]);
        i = i + 1;
    }
    proof {
        assert(xor_bytes(a@, b@).take(a@.len() as int) =~= xor_bytes(a@, b@));
    }
    r
}

/// XOR by the same string twice gives the original back.
pub proof fn lemma_xor_bytes_involution(a: Seq<u8>, k: Seq<u8>)
    requires
        a.len() == k.len(),
    ensures
        xor_bytes(xor_bytes(a, k), k) == a,
{
    assert(forall|x: u8, y: u8| #[trigger] ((x ^ y) ^ y) == x) by (bit_vector);
    assert(xor_bytes(xor_bytes(a, k), k) =~= a);
}

} // verus!
