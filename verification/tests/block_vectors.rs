//! Known-answer vectors for every variant, from Appendix C of "The Simon
//! and Speck Families of Lightweight Block Ciphers", and the block-level
//! length checks.

use speck_ex::{SpeckCipher, SpeckError, Variant};

fn hex(s: &str) -> Vec<u8> {
    let digits: Vec<u32> = s.chars().map(|c| c.to_digit(16).expect("hex digit")).collect();
    assert!(digits.len() % 2 == 0);
    digits.chunks(2).map(|p| (p[0] * 16 + p[1]) as u8).collect()
}

fn check_vector(v: Variant, key_hex: &str, pt_hex: &str, ct_hex: &str) {
    let key = hex(key_hex);
    let pt = hex(pt_hex);
    let ct = hex(ct_hex);
    let cipher = SpeckCipher::init(v, &key).expect("key length is right");
    let got_ct = cipher.encrypt_block(&pt).expect("block length is right");
    assert_eq!(got_ct, ct);
    let got_pt = cipher.decrypt_block(&ct).expect("block length is right");
    assert_eq!(got_pt, pt);
}

#[test]
fn vector_speck32_64() {
    check_vector(Variant::Speck32_64, "1918111009080100", "6574694c", "a86842f2");
}

#[test]
fn vector_speck48_72() {
    check_vector(Variant::Speck48_72, "1211100a0908020100", "20796c6c6172", "c049a5385adc");
}

#[test]
fn vector_speck48_96() {
    check_vector(Variant::Speck48_96, "1a19181211100a0908020100", "6d2073696874", "735e10b6445d");
}

#[test]
fn vector_speck64_96() {
    check_vector(
        Variant::Speck64_96,
        "131211100b0a090803020100",
        "74614620736e6165",
        "9f7952ec4175946c",
    );
}

#[test]
fn vector_speck64_128() {
    check_vector(
        Variant::Speck64_128,
        "1b1a1918131211100b0a090803020100",
        "3b7265747475432d",
        "8c6fa548454e028b",
    );
}

#[test]
fn vector_speck96_96() {
    check_vector(
        Variant::Speck96_96,
        "0d0c0b0a0908050403020100",
        "65776f68202c656761737520",
        "9e4d09ab717862bdde8f79aa",
    );
}

#[test]
fn vector_speck96_144() {
    check_vector(
        Variant::Speck96_144,
        "1514131211100d0c0b0a0908050403020100",
        "656d6974206e69202c726576",
        "2bf31072228a7ae440252ee6",
    );
}

#[test]
fn vector_speck128_128() {
    check_vector(
        Variant::Speck128_128,
        "0f0e0d0c0b0a09080706050403020100",
        "6c617669757165207469206564616d20",
        "a65d9851797832657860fedf5c570d18",
    );
}

#[test]
fn vector_speck128_192() {
    check_vector(
        Variant::Speck128_192,
        "17161514131211100f0e0d0c0b0a09080706050403020100",
        "726148206665696843206f7420746e65",
        "1be4cf3a13135566f9bc185de03c1886",
    );
}

#[test]
fn vector_speck128_256() {
    check_vector(
        Variant::Speck128_256,
        "1f1e1d1c1b1a191817161514131211100f0e0d0c0b0a09080706050403020100",
        "65736f6874206e49202e72656e6f6f70",
        "4109010405c0f53e4eeeb48d9c188f43",
    );
}

#[test]
fn all_variants() {
    let variants = [
        Variant::Speck32_64,
        Variant::Speck48_72,
        Variant::Speck48_96,
        Variant::Speck64_96,
        Variant::Speck64_128,
        Variant::Speck96_96,
        Variant::Speck96_144,
        Variant::Speck128_128,
        Variant::Speck128_192,
        Variant::Speck128_256,
    ];
    // Round trip on arbitrary data for every variant.
    for v in variants {
        let key: Vec<u8> = (0..v.key_size()).map(|i| (i as u8).wrapping_mul(37).wrapping_add(5)).collect();
        let block: Vec<u8> = (0..v.block_size()).map(|i| (i as u8).wrapping_mul(91).wrapping_add(13)).collect();
        let cipher = SpeckCipher::init(v, &key).expect("key length is right");
        let ct = cipher.encrypt_block(&block).expect("block length is right");
        assert_eq!(ct.len(), block.len());
        assert_ne!(ct, block);
        let pt = cipher.decrypt_block(&ct).expect("block length is right");
        assert_eq!(pt, block);
    }
}

#[test]
fn wrong_key_length_is_rejected() {
    let key = vec![0u8; 15];
    match SpeckCipher::init(Variant::Speck64_128, &key) {
        Err(SpeckError::InvalidKeyLength) => (),
        _ => panic!("a 15-byte key must be rejected for a 16-byte-key variant"),
    }
}

#[test]
fn wrong_block_length_is_rejected() {
    let key = vec![0u8; 16];
    let cipher = SpeckCipher::init(Variant::Speck64_128, &key).expect("key length is right");
    match cipher.encrypt_block(&[0u8; 7]) {
        Err(SpeckError::InvalidBlockLength) => (),
        _ => panic!("a 7-byte block must be rejected, not truncated or padded"),
    }
    match cipher.decrypt_block(&[0u8; 9]) {
        Err(SpeckError::InvalidBlockLength) => (),
        _ => panic!("a 9-byte block must be rejected, not truncated or padded"),
    }
}
