//! The authentication side of the AEAD construction.
//!
//! The tag is Poly1305 over one well-defined message: the associated data
//! padded with zeroes to a 16-byte boundary, the ciphertext padded the same
//! way, and both lengths as 8-byte little-endian integers. Building that
//! message, and comparing tags in constant time, is verified here; the
//! Poly1305 compression itself is the `poly1305` crate's, behind one
//! trusted wrapper.

use poly1305::universal_hash::{KeyInit, UniversalHash};
use vstd::prelude::*;

verus! {

/// The Poly1305 tag over a message, under a 32-byte one-time key.
pub uninterp spec fn poly1305_of(key: Seq<u8>, msg: Seq<u8>) -> Seq<u8>;

/// Relies on `poly1305::Poly1305` (`new_from_slice`, `update_padded`,
/// `finalize`): the 16-byte tag depends on the 32-byte key and the message
/// alone.
#[verifier::external_body]
fn poly1305_mac(key: &[u8], msg: &[u8]) -> (r: Vec<u8>)
    requires
        key@.len() == 32,
    ensures
        r@ == poly1305_of(key@, msg@),
        r@.len() == 16,
{
    let mut mac = poly1305::Poly1305::new_from_slice(key).unwrap();
    mac.update_padded(msg);
    let tag = mac.finalize();
    tag.as_slice().to_vec()
}

/// `n` zero bytes.
pub open spec fn zeros(n: nat) -> Seq<u8> {
    Seq::new(n, |i: int| 0u8)
}

/// How many zero bytes pad a string of `n` bytes to a 16-byte boundary.
pub open spec fn pad16_len(n: nat) -> nat {
    ((16 - (n % 16)) % 16) as nat
}

/// The message the tag is computed over: `aad`, zero-padded to a 16-byte
/// boundary, then the ciphertext, zero-padded the same way, then the two
/// lengths as 8-byte little-endian integers.
pub open spec fn mac_message(aad: Seq<u8>, ct: Seq<u8>) -> Seq<u8> {
    aad + zeros(pad16_len(aad.len())) + ct + zeros(pad16_len(ct.len()))
        + vstd::bytes::spec_u64_to_le_bytes(aad.len() as u64) + vstd::bytes::spec_u64_to_le_bytes(
        ct.len() as u64,
    )
}

/// `n` zero bytes, executable.
fn zero_vec(n: usize) -> (r: Vec<u8>)
    ensures
        r@ == zeros(n as nat),
{
    let mut r: Vec<u8> = Vec::new();
    let mut i: usize = 0;
    while i < n
        invariant
            0 <= i <= n,
            r@ =~= zeros(n as nat).take(i as int),
        decreases n - i,
    {
        proof {
            assert(zeros(n as nat).take(i + 1) =~= zeros(n as nat).take(i as int).push(0u8));
        }
        r.push(0u8);
        i = i + 1;
    }
    proof {
        assert(zeros(n as nat).take(n as int) =~= zeros(n as nat));
    }
    r
}

/// Computes the 16-byte Poly1305 tag over associated data and ciphertext,
/// under a 32-byte one-time key.
pub fn compute_poly1305_tag(poly_key: &[u8], aad: &[u8], ciphertext: &[u8]) -> (tag: Vec<u8>)
    requires
        poly_key@.len() == 32,
    ensures
        tag@ == poly1305_of(poly_key@, mac_message(aad@, ciphertext@)),
        tag@.len() == 16,
{
    let mut msg = vstd::slice::slice_to_vec(aad);
    let mut pad1 = zero_vec((16 - (aad.len() % 16)) % 16);
    msg.append(&mut pad1);
    let mut ctv = vstd::slice::slice_to_vec(ciphertext);
    msg.append(&mut ctv);
    let mut pad2 = zero_vec((16 - (ciphertext.len() % 16)) % 16);
    msg.append(&mut pad2);
    let mut alen = vstd::bytes::u64_to_le_bytes(aad.len() as u64);
    msg.append(&mut alen);
    let mut clen = vstd::bytes::u64_to_le_bytes(ciphertext.len() as u64);
    msg.append(&mut clen);
    proof {
        assert(msg@ =~= mac_message(aad@, ciphertext@));
    }
    poly1305_mac(poly_key, msg.as_slice())
}

proof fn lemma_or_zero(x: u8, y: u8)
    ensures
        ((x | y) == 0) <==> (x == 0 && y == 0),
{
    assert(((x | y) == 0) <==> (x == 0 && y == 0)) by (bit_vector);
}

proof fn lemma_xor_zero(x: u8, y: u8)
    ensures
        ((x ^ y) == 0) <==> x == y,
{
    assert(((x ^ y) == 0) <==> x == y) by (bit_vector);
}

/// Compares two equal-length byte strings in constant time: the mismatches
/// of every position are OR-accumulated, and only the accumulator is
/// inspected, once, at the end — no early exit leaks the position of the
/// first difference.
pub fn ct_eq(a: &[u8], b: &[u8]) -> (r: bool)
    requires
        a@.len() == b@.len(),
    ensures
        r <==> a@ == b@,
{
    let mut acc: u8 = 0;
    let mut i: usize = 0;
    while i < a.len()
        invariant
            0 <= i <= a@.len(),
            a@.len() == b@.len(),
            (acc == 0) <==> (forall|j: int| 0 <= j < i ==> a@[j] == b@[j]),
        decreases a@.len() - i,
    {
        proof {
            lemma_or_zero(acc, a@[i as int] ^ b@[i as int]);
            lemma_xor_zero(a@[i as int], b@[i as int]);
        }
        acc = acc | (a[i] ^ b[i]);
        i = i + 1;
    }
    proof {
        if acc == 0 {
            assert(a@ =~= b@);
        }
    }
    acc == 0
}

} // verus!
