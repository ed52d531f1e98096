//! Authenticated encryption: counter mode with a Poly1305 tag whose
//! one-time key is the first 32 bytes of the cipher's own keystream.
//!
//! The 32 subkey bytes permanently advance the keystream position: the
//! ciphertext is masked with keystream bytes 32 onward, so the subkey bytes
//! are never reused to mask data. Decryption recomputes the expected tag,
//! compares in constant time, and releases no plaintext on a mismatch.

use crate::ctr_mode::{ctr_xor, keystream_bytes, keystream_range, lemma_ctr_symmetry};
use crate::mac::{compute_poly1305_tag, ct_eq, mac_message, poly1305_of};
use crate::speck::{schedule_of, SpeckCipher};
use crate::variant::{block_bytes, key_bytes, Variant};
use crate::SpeckError;
use vstd::prelude::*;

verus! {

/// The one-time Poly1305 key: keystream bytes `0 .. 32`.
pub open spec fn aead_subkey(v: Variant, ks: Seq<u64>, nonce: Seq<u8>) -> Seq<u8> {
    keystream_bytes(v, ks, nonce, 0, 32)
}

/// The ciphertext: the plaintext masked with keystream bytes `32` onward.
pub open spec fn aead_ciphertext(v: Variant, ks: Seq<u64>, nonce: Seq<u8>, pt: Seq<u8>) -> Seq<
    u8,
> {
    ctr_xor(v, ks, nonce, pt, 32)
}

/// The tag of a ciphertext and its associated data.
pub open spec fn aead_tag_of(v: Variant, ks: Seq<u64>, nonce: Seq<u8>, ct: Seq<u8>, aad: Seq<u8>) -> Seq<
    u8,
> {
    poly1305_of(aead_subkey(v, ks, nonce), mac_message(aad, ct))
}

/// What opening returns: the decrypted data when the tag is exactly the
/// tag of the ciphertext and associated data, nothing otherwise.
pub open spec fn aead_open_spec(
    v: Variant,
    ks: Seq<u64>,
    nonce: Seq<u8>,
    ct: Seq<u8>,
    tag: Seq<u8>,
    aad: Seq<u8>,
) -> Option<Seq<u8>> {
    if tag == aead_tag_of(v, ks, nonce, ct, aad) {
        Some(ctr_xor(v, ks, nonce, ct, 32))
    } else {
        None
    }
}

/// Encrypts and authenticates: returns the ciphertext (same length as the
/// plaintext) and the 16-byte tag over ciphertext and associated data.
/// Reports `InvalidKeyLength` or `InvalidNonceLength` when key or nonce do
/// not have the variant's sizes.
pub fn aead_seal(v: Variant, key: &[u8], nonce: &[u8], plaintext: &[u8], aad: &[u8]) -> (r: Result<
    (Vec<u8>, Vec<u8>),
    SpeckError,
>)
    ensures
        key@.len() == key_bytes(v) && nonce@.len() == block_bytes(v) ==> (r matches Ok(p)
            && p.0@ == aead_ciphertext(v, schedule_of(v, key@), nonce@, plaintext@)
            && p.1@ == aead_tag_of(v, schedule_of(v, key@), nonce@, p.0@, aad@)
            && p.0@.len() == plaintext@.len() && p.1@.len() == 16),
        key@.len() != key_bytes(v) ==> r === Err(SpeckError::InvalidKeyLength),
        key@.len() == key_bytes(v) && nonce@.len() != block_bytes(v) ==> r === Err(
            SpeckError::InvalidNonceLength,
        ),
{
    let cipher = match SpeckCipher::init(v, key) {
        Ok(c) => c,
        Err(e) => {
            return Err(e);
        },
    };
    if nonce.len() != cipher.variant().block_size() {
        return Err(SpeckError::InvalidNonceLength);
    }
    let subkey = keystream_range(&cipher, nonce, 0, 32);
    let stream = keystream_range(&cipher, nonce, 32, plaintext.len());
    let ciphertext = crate::bytes::xor_slices(plaintext, stream.as_slice());
    let tag = compute_poly1305_tag(subkey.as_slice(), aad, ciphertext.as_slice());
    Ok((ciphertext, tag))
}

/// Verifies the tag and decrypts: recomputes the expected tag by the same
/// derivation, compares in constant time, and only then unmasks the
/// ciphertext. Reports `AuthenticationFailed`, with no plaintext, when the
/// tag does not match; `InvalidKeyLength` or `InvalidNonceLength` when key
/// or nonce do not have the variant's sizes.
pub fn aead_open(v: Variant, key: &[u8], nonce: &[u8], ciphertext: &[u8], tag: &[u8], aad: &[u8]) -> (r:
    Result<Vec<u8>, SpeckError>)
    ensures
        key@.len() == key_bytes(v) && nonce@.len() == block_bytes(v) ==> (match aead_open_spec(
            v,
            schedule_of(v, key@),
            nonce@,
            ciphertext@,
            tag@,
            aad@,
        ) {
            Some(p) => r matches Ok(out) && out@ == p,
            None => r === Err(SpeckError::AuthenticationFailed),
        }),
        key@.len() != key_bytes(v) ==> r === Err(SpeckError::InvalidKeyLength),
        key@.len() == key_bytes(v) && nonce@.len() != block_bytes(v) ==> r === Err(
            SpeckError::InvalidNonceLength,
        ),
{
    let cipher = match SpeckCipher::init(v, key) {
        Ok(c) => c,
        Err(e) => {
            return Err(e);
        },
    };
    if nonce.len() != cipher.variant().block_size() {
        return Err(SpeckError::InvalidNonceLength);
    }
    let subkey = keystream_range(&cipher, nonce, 0, 32);
    let expected = compute_poly1305_tag(subkey.as_slice(), aad, ciphertext);
    if tag.len() != 16 {
        return Err(SpeckError::AuthenticationFailed);
    }
    if !ct_eq(expected.as_slice(), tag) {
        return Err(SpeckError::AuthenticationFailed);
    }
    let stream = keystream_range(&cipher, nonce, 32, ciphertext.len());
    let plaintext = crate::bytes::xor_slices(ciphertext, stream.as_slice());
    Ok(plaintext)
}

/// Opening what sealing produced, with the same key, nonce and associated
/// data, gives the plaintext back.
pub proof fn lemma_aead_round_trip(
    v: Variant,
    ks: Seq<u64>,
    nonce: Seq<u8>,
    pt: Seq<u8>,
    aad: Seq<u8>,
)
    ensures
        aead_open_spec(
            v,
            ks,
            nonce,
            aead_ciphertext(v, ks, nonce, pt),
            aead_tag_of(v, ks, nonce, aead_ciphertext(v, ks, nonce, pt), aad),
            aad,
        ) == Some(pt),
{
    lemma_ctr_symmetry(v, ks, nonce, pt, 32);
}

/// A tag that is not the tag of the ciphertext and associated data is
/// rejected, and no plaintext is returned. For a modified ciphertext or
/// associated data the recomputed tag changes except on a Poly1305
/// collision; that rejection is exercised by tests, not proved.
pub proof fn lemma_aead_tag_tamper_rejected(
    v: Variant,
    ks: Seq<u64>,
    nonce: Seq<u8>,
    ct: Seq<u8>,
    tag: Seq<u8>,
    aad: Seq<u8>,
)
    requires
        tag != aead_tag_of(v, ks, nonce, ct, aad),
    ensures
        aead_open_spec(v, ks, nonce, ct, tag, aad) is None,
{
}

} // verus!
