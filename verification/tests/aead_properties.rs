//! Behavior of the AEAD construction: round trips, tamper detection bit by
//! bit, determinism, key separation, and the boundary cases.

use speck_ex::{aead_open, aead_seal, SpeckError, Variant};

fn pattern(len: usize, seed: u8) -> Vec<u8> {
    (0..len).map(|i| (i as u8).wrapping_mul(59).wrapping_add(seed)).collect()
}

const AEAD_VARIANTS: [Variant; 10] = [
    Variant::Speck32_64,
    Variant::Speck48_72,
    Variant::Speck48_96,
    Variant::Speck64_96,
    Variant::Speck64_128,
    Variant::Speck96_96,
    Variant::Speck96_144,
    Variant::Speck128_128,
    Variant::Speck128_192,
    Variant::Speck128_256,
];

#[test]
fn seal_open_round_trip_every_variant() {
    for v in AEAD_VARIANTS {
        let key = pattern(v.key_size(), 1);
        let nonce = pattern(v.block_size(), 2);
        let pt = pattern(45, 3);
        let aad = pattern(13, 4);
        let (ct, tag) = aead_seal(v, &key, &nonce, &pt, &aad).expect("lengths are right");
        assert_eq!(ct.len(), pt.len());
        assert_eq!(tag.len(), 16);
        assert_ne!(ct, pt);
        let got = aead_open(v, &key, &nonce, &ct, &tag, &aad).expect("the tag must verify");
        assert_eq!(got, pt);
    }
}

#[test]
fn example_scenario() {
    // 64-bit blocks with a 128-bit key, all-zero key and nonce, plaintext
    // "ABCDEFGH": sealing is deterministic, opening returns the plaintext,
    // and a tag with its last byte altered is rejected.
    let v = Variant::Speck64_128;
    let key = vec![0u8; 16];
    let nonce = vec![0u8; 8];
    let pt = b"ABCDEFGH".to_vec();
    let (ct, tag) = aead_seal(v, &key, &nonce, &pt, &[]).expect("lengths are right");
    let (ct2, tag2) = aead_seal(v, &key, &nonce, &pt, &[]).expect("lengths are right");
    assert_eq!(ct, ct2);
    assert_eq!(tag, tag2);
    let got = aead_open(v, &key, &nonce, &ct, &tag, &[]).expect("the tag must verify");
    assert_eq!(got, b"ABCDEFGH".to_vec());
    let mut bad_tag = tag.clone();
    bad_tag[15] ^= 0x01;
    match aead_open(v, &key, &nonce, &ct, &bad_tag, &[]) {
        Err(SpeckError::AuthenticationFailed) => (),
        _ => panic!("an altered tag must be rejected"),
    }
}

#[test]
fn flipping_any_ciphertext_bit_fails() {
    let v = Variant::Speck128_128;
    let key = pattern(v.key_size(), 21);
    let nonce = pattern(v.block_size(), 22);
    let pt = pattern(19, 23);
    let aad = pattern(7, 24);
    let (ct, tag) = aead_seal(v, &key, &nonce, &pt, &aad).expect("lengths are right");
    for byte in 0..ct.len() {
        for bit in 0..8 {
            let mut bad = ct.clone();
            bad[byte] ^= 1u8 << bit;
            match aead_open(v, &key, &nonce, &bad, &tag, &aad) {
                Err(SpeckError::AuthenticationFailed) => (),
                _ => panic!("a flipped ciphertext bit must be rejected"),
            }
        }
    }
}

#[test]
fn flipping_any_tag_bit_fails() {
    let v = Variant::Speck128_128;
    let key = pattern(v.key_size(), 31);
    let nonce = pattern(v.block_size(), 32);
    let pt = pattern(19, 33);
    let aad = pattern(7, 34);
    let (ct, tag) = aead_seal(v, &key, &nonce, &pt, &aad).expect("lengths are right");
    for byte in 0..tag.len() {
        for bit in 0..8 {
            let mut bad = tag.clone();
            bad[byte] ^= 1u8 << bit;
            match aead_open(v, &key, &nonce, &ct, &bad, &aad) {
                Err(SpeckError::AuthenticationFailed) => (),
                _ => panic!("a flipped tag bit must be rejected"),
            }
        }
    }
}

#[test]
fn flipping_any_aad_bit_fails() {
    let v = Variant::Speck128_128;
    let key = pattern(v.key_size(), 41);
    let nonce = pattern(v.block_size(), 42);
    let pt = pattern(19, 43);
    let aad = pattern(7, 44);
    let (ct, tag) = aead_seal(v, &key, &nonce, &pt, &aad).expect("lengths are right");
    for byte in 0..aad.len() {
        for bit in 0..8 {
            let mut bad = aad.clone();
            bad[byte] ^= 1u8 << bit;
            match aead_open(v, &key, &nonce, &ct, &tag, &bad) {
                Err(SpeckError::AuthenticationFailed) => (),
                _ => panic!("a flipped associated-data bit must be rejected"),
            }
        }
    }
}

#[test]
fn different_keys_give_different_outputs() {
    let v = Variant::Speck64_128;
    let key1 = pattern(v.key_size(), 51);
    let mut key2 = key1.clone();
    key2[0] ^= 0x80;
    let nonce = pattern(v.block_size(), 52);
    let pt = pattern(32, 53);
    let (ct1, tag1) = aead_seal(v, &key1, &nonce, &pt, &[]).expect("lengths are right");
    let (ct2, tag2) = aead_seal(v, &key2, &nonce, &pt, &[]).expect("lengths are right");
    assert_ne!(ct1, ct2);
    assert_ne!(tag1, tag2);
    // The other key's output does not open under the first key.
    match aead_open(v, &key1, &nonce, &ct2, &tag2, &[]) {
        Err(SpeckError::AuthenticationFailed) => (),
        _ => panic!("another key's sealed output must not verify"),
    }
}

#[test]
fn empty_plaintext_and_aad_still_authenticate() {
    for v in AEAD_VARIANTS {
        let key = pattern(v.key_size(), 61);
        let nonce = pattern(v.block_size(), 62);
        let (ct, tag) = aead_seal(v, &key, &nonce, &[], &[]).expect("lengths are right");
        assert_eq!(ct.len(), 0);
        assert_eq!(tag.len(), 16);
        let got = aead_open(v, &key, &nonce, &ct, &tag, &[]).expect("the tag must verify");
        assert_eq!(got.len(), 0);
        let mut bad = tag.clone();
        bad[0] ^= 1;
        match aead_open(v, &key, &nonce, &ct, &bad, &[]) {
            Err(SpeckError::AuthenticationFailed) => (),
            _ => panic!("an altered tag over empty data must be rejected"),
        }
    }
}

#[test]
fn aead_length_errors() {
    let v = Variant::Speck64_128;
    let key_short = vec![0u8; 15];
    let nonce = vec![0u8; 8];
    match aead_seal(v, &key_short, &nonce, &[], &[]) {
        Err(SpeckError::InvalidKeyLength) => (),
        _ => panic!("a short key must be rejected"),
    }
    let key = vec![0u8; 16];
    let nonce_long = vec![0u8; 9];
    match aead_seal(v, &key, &nonce_long, &[], &[]) {
        Err(SpeckError::InvalidNonceLength) => (),
        _ => panic!("a long nonce must be rejected"),
    }
    match aead_open(v, &key_short, &nonce, &[], &[0u8; 16], &[]) {
        Err(SpeckError::InvalidKeyLength) => (),
        _ => panic!("a short key must be rejected"),
    }
    match aead_open(v, &key, &nonce_long, &[], &[0u8; 16], &[]) {
        Err(SpeckError::InvalidNonceLength) => (),
        _ => panic!("a long nonce must be rejected"),
    }
    // A tag of the wrong length can never match a 16-byte tag.
    let (ct, tag) = aead_seal(v, &key, &nonce, b"hi", &[]).expect("lengths are right");
    match aead_open(v, &key, &nonce, &ct, &tag[..15], &[]) {
        Err(SpeckError::AuthenticationFailed) => (),
        _ => panic!("a truncated tag must be rejected"),
    }
}

#[test]
fn subkey_is_not_reused_for_ciphertext() {
    // The ciphertext must be masked with keystream bytes 32 onward, not
    // with the 32 subkey bytes: encrypting with raw CTR from the nonce
    // gives a different ciphertext than sealing does.
    let v = Variant::Speck64_128;
    let key = pattern(v.key_size(), 71);
    let nonce = pattern(v.block_size(), 72);
    let pt = pattern(24, 73);
    let (ct, _tag) = aead_seal(v, &key, &nonce, &pt, &[]).expect("lengths are right");
    let raw = speck_ex::ctr_crypt(v, &key, &nonce, &pt).expect("lengths are right");
    assert_ne!(ct, raw);
}
