//! Counter mode: the cipher as a keystream generator.
//!
//! The nonce is exactly one block and is the initial counter value. The
//! counter is the whole block read as a big-endian integer; each block of
//! keystream encrypts the current counter, and the counter then grows by
//! one, wrapping silently modulo `2^(block bits)`. The same XOR operation
//! encrypts and decrypts.

use crate::bytes::{be_bytes, be_bytes_vec, be_val, be_val_u128, lemma_be_bytes_len,
    lemma_be_bytes_mod, lemma_be_val_bound, lemma_pow256_16, lemma_pow256_le, pow256, xor_bytes,
    xor_slices};
use crate::speck::{encrypt_block_spec, schedule_of, SpeckCipher};
use crate::variant::{block_bytes, key_bytes, lemma_variant_wf, Variant};
use crate::SpeckError;
use vstd::prelude::*;

verus! {

/// The counter block used for the `i`-th block of keystream: the nonce's
/// value plus `i`, wrapped modulo `2^(block bits)` and written big-endian.
pub open spec fn counter_block(nonce: Seq<u8>, i: nat) -> Seq<u8> {
    be_bytes(be_val(nonce) + i, nonce.len())
}

/// Byte `j` of the keystream: byte `j % block` of the encryption of
/// counter block `j / block`.
pub open spec fn keystream_byte(v: Variant, ks: Seq<u64>, nonce: Seq<u8>, j: nat) -> u8 {
    encrypt_block_spec(v, ks, counter_block(nonce, j / block_bytes(v)))[(j % block_bytes(
        v,
    )) as int]
}

/// `len` bytes of keystream starting at byte position `off`.
pub open spec fn keystream_bytes(
    v: Variant,
    ks: Seq<u64>,
    nonce: Seq<u8>,
    off: nat,
    len: nat,
) -> Seq<u8> {
    Seq::new(len, |j: int| keystream_byte(v, ks, nonce, (off + j) as nat))
}

/// `data` XORed against the keystream starting at byte position `off`.
pub open spec fn ctr_xor(
    v: Variant,
    ks: Seq<u64>,
    nonce: Seq<u8>,
    data: Seq<u8>,
    off: nat,
) -> Seq<u8> {
    xor_bytes(data, keystream_bytes(v, ks, nonce, off, data.len()))
}

/// Generates keystream bytes `off .. off + len`.
pub(crate) fn keystream_range(cipher: &SpeckCipher, nonce: &[u8], off: usize, len: usize) -> (out:
    Vec<u8>)
    requires
        cipher.wf(),
        nonce@.len() == block_bytes(cipher.variant_spec()),
    ensures
        out@ == keystream_bytes(cipher.variant_spec(), cipher.keys(), nonce@, off as nat,
            len as nat),
{
    let ghost v = cipher.variant_spec();
    let bs = cipher.variant().block_size();
    proof {
        lemma_variant_wf(v);
        lemma_be_val_bound(nonce@);
        lemma_pow256_le(block_bytes(v), 16);
        lemma_pow256_16();
    }
    let nonce_val = be_val_u128(nonce);
    let mut out: Vec<u8> = Vec::new();
    let mut j: usize = 0;
    while j < len
        invariant
            0 <= j <= len,
            cipher.wf(),
            v == cipher.variant_spec(),
            bs as nat == block_bytes(v),
            1 <= bs <= 16,
            nonce@.len() == block_bytes(v),
            nonce_val as nat == be_val(nonce@),
            nonce_val < pow256(block_bytes(v)),
            out@ =~= keystream_bytes(v, cipher.keys(), nonce@, off as nat, len as nat).take(
                j as int),
        decreases len - j,
    {
        let pos = (off as u128) + (j as u128);
        let bsu = bs as u128;
        let bi = pos / bsu;
        let r = (pos % bsu) as usize;
        let cv = nonce_val.wrapping_add(bi);
        proof {
            lemma_pow256_16();
            lemma_counter_value(be_val(nonce@), bi as nat, block_bytes(v));
        }
        let block = be_bytes_vec(cv, bs);
        proof {
            lemma_be_bytes_len(cv as nat, bs as nat);
        }
        let ksb = cipher.encrypt_block_raw(block.as_slice());
        proof {
            assert(keystream_bytes(v, cipher.keys(), nonce@, off as nat, len as nat).take(j + 1)
                =~= keystream_bytes(v, cipher.keys(), nonce@, off as nat, len as nat).take(
                j as int).push(keystream_byte(v, cipher.keys(), nonce@, (off + j) as nat)));
        }
        out.push(ksb[r]);
        j = j + 1;
    }
    proof {
        assert(keystream_bytes(v, cipher.keys(), nonce@, off as nat, len as nat).take(len as int)
            =~= keystream_bytes(v, cipher.keys(), nonce@, off as nat, len as nat));
    }
    out
}

/// Adding the block index to the nonce value in a wrapping `u128` yields
/// the counter block: the block's width divides the machine width.
proof fn lemma_counter_value(n: nat, bi: nat, len: nat)
    requires
        len <= 16,
        n < pow256(len),
        bi < pow256(16),
    ensures
        be_bytes(vstd::wrapping::u128_specs::wrapping_add((n as u128), (bi as u128)) as nat, len)
            == be_bytes(n + bi, len),
{
    lemma_pow256_16();
    lemma_pow256_le(len, 16);
    let w = vstd::wrapping::u128_specs::wrapping_add((n as u128), (bi as u128));
    if n + bi > u128::MAX {
        assert(w as nat == n + bi - pow256(16));
        lemma_pow256_divides(len, 16);
        crate::bytes::lemma_pow256_pos(len);
        let q = pow256(len);
        let k = pow256(16) / q;
        vstd::arithmetic::mul::lemma_mul_is_commutative(q as int, k as int);
        assert((q as int) * (k as int) + (n + bi - pow256(16)) == n + bi);
        assert(((q as int) * (k as int) + (w as int)) % (q as int) == (w as int) % (q as int)) by {
            vstd::arithmetic::div_mod::lemma_mod_multiples_vanish(
                k as int, w as int, q as int);
        }
        assert((w as int) % (q as int) == ((n + bi) as int) % (q as int));
        lemma_be_bytes_mod(w as nat, len);
        lemma_be_bytes_mod((n + bi) as nat, len);
    }
}

/// `256^a` divides `256^b` for `a <= b`.
proof fn lemma_pow256_divides(a: nat, b: nat)
    requires
        a <= b,
    ensures
        pow256(b) % pow256(a) == 0,
        pow256(b) / pow256(a) * pow256(a) == pow256(b),
    decreases b,
{
    crate::bytes::lemma_pow256_pos(a);
    if a == b {
        vstd::arithmetic::div_mod::lemma_mod_self_0(pow256(a) as int);
        vstd::arithmetic::div_mod::lemma_div_basics_3(pow256(a) as int);
    } else {
        lemma_pow256_divides(a, (b - 1) as nat);
        let p = pow256((b - 1) as nat);
        let q = pow256(a);
        let t = p / q;
        vstd::arithmetic::div_mod::lemma_fundamental_div_mod(p as int, q as int);
        assert(p == q * t);
        assert(pow256(b) == 256 * p);
        assert(256 * p == (q as int) * (256 * t)) by (nonlinear_arith)
            requires
                p == q * t,
        ;
        vstd::arithmetic::div_mod::lemma_mod_multiples_vanish(256 * (t as int), 0, q as int);
        vstd::arithmetic::div_mod::lemma_small_mod(0, q);
        assert(pow256(b) % q == 0);
        vstd::arithmetic::div_mod::lemma_fundamental_div_mod(pow256(b) as int, q as int);
        vstd::arithmetic::mul::lemma_mul_is_commutative(q as int, (pow256(b) / q) as int);
    }
}

/// Encrypts or decrypts arbitrary-length data in counter mode: the output
/// is the data XORed with the keystream that starts at the nonce's counter
/// value. Reports `InvalidKeyLength` or `InvalidNonceLength` when key or
/// nonce do not have the variant's sizes.
pub fn ctr_crypt(v: Variant, key: &[u8], nonce: &[u8], data: &[u8]) -> (r: Result<
    Vec<u8>,
    SpeckError,
>)
    ensures
        key@.len() == key_bytes(v) && nonce@.len() == block_bytes(v) ==> (r matches Ok(out)
            && out@ == ctr_xor(v, schedule_of(v, key@), nonce@, data@, 0)),
        key@.len() != key_bytes(v) ==> r === Err(SpeckError::InvalidKeyLength),
        key@.len() == key_bytes(v) && nonce@.len() != block_bytes(v) ==> r === Err(
            SpeckError::InvalidNonceLength,
        ),
{
    let cipher = match SpeckCipher::init(v, key) {
        Ok(c) => c,
        Err(e) => {
            return Err(e);
        },
    };
    if nonce.len() != cipher.variant().block_size() {
        return Err(SpeckError::InvalidNonceLength);
    }
    let ks = keystream_range(&cipher, nonce, 0, data.len());
    let out = xor_slices(data, ks.as_slice());
    Ok(out)
}

/// Applying the same counter-mode operation twice gives the data back: the
/// keystream only depends on key and nonce, and XOR is an involution.
pub proof fn lemma_ctr_symmetry(
    v: Variant,
    ks: Seq<u64>,
    nonce: Seq<u8>,
    data: Seq<u8>,
    off: nat,
)
    ensures
        ctr_xor(v, ks, nonce, ctr_xor(v, ks, nonce, data, off), off) == data,
{
    crate::bytes::lemma_xor_bytes_involution(
        data,
        keystream_bytes(v, ks, nonce, off, data.len()),
    );
}

/// The keystream does not depend on the data: XORing two outputs produced
/// under the same key and nonce equals XORing the two inputs.
pub proof fn lemma_ctr_keystream_independent(
    v: Variant,
    ks: Seq<u64>,
    nonce: Seq<u8>,
    d1: Seq<u8>,
    d2: Seq<u8>,
    off: nat,
)
    requires
        d1.len() == d2.len(),
    ensures
        xor_bytes(ctr_xor(v, ks, nonce, d1, off), ctr_xor(v, ks, nonce, d2, off)) == xor_bytes(
            d1,
            d2,
        ),
{
    assert(forall|x: u8, y: u8, k: u8| #[trigger] ((x ^ k) ^ (y ^ k)) == x ^ y) by (bit_vector);
    assert(xor_bytes(ctr_xor(v, ks, nonce, d1, off), ctr_xor(v, ks, nonce, d2, off)) =~= xor_bytes(
        d1,
        d2,
    ));
}

} // verus!
