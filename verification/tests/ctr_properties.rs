//! Behavior of the counter mode: symmetry, keystream independence from the
//! data, determinism, and the length checks.

use speck_ex::{ctr_crypt, SpeckError, Variant};

fn pattern(len: usize, seed: u8) -> Vec<u8> {
    (0..len).map(|i| (i as u8).wrapping_mul(113).wrapping_add(seed)).collect()
}

const VARIANTS: [Variant; 10] = [
    Variant::Speck32_64,
    Variant::Speck48_72,
    Variant::Speck48_96,
    Variant::Speck64_96,
    Variant::Speck64_128,
    Variant::Speck96_96,
    Variant::Speck96_144,
    Variant::Speck128_128,
    Variant::Speck128_192,
    Variant::Speck128_256,
];

#[test]
fn ctr_is_its_own_inverse() {
    for v in VARIANTS {
        let key = pattern(v.key_size(), 5);
        let nonce = pattern(v.block_size(), 6);
        for len in [0usize, 1, 5, 16, 31, 64, 77] {
            let data = pattern(len, 7);
            let once = ctr_crypt(v, &key, &nonce, &data).expect("lengths are right");
            assert_eq!(once.len(), data.len());
            let twice = ctr_crypt(v, &key, &nonce, &once).expect("lengths are right");
            assert_eq!(twice, data);
        }
    }
}

#[test]
fn keystream_does_not_depend_on_data() {
    let v = Variant::Speck96_144;
    let key = pattern(v.key_size(), 15);
    let nonce = pattern(v.block_size(), 16);
    let d1 = pattern(50, 17);
    let d2 = pattern(50, 99);
    let c1 = ctr_crypt(v, &key, &nonce, &d1).expect("lengths are right");
    let c2 = ctr_crypt(v, &key, &nonce, &d2).expect("lengths are right");
    for j in 0..50 {
        assert_eq!(c1[j] ^ c2[j], d1[j] ^ d2[j]);
    }
}

#[test]
fn ctr_is_deterministic() {
    let v = Variant::Speck32_64;
    let key = pattern(v.key_size(), 25);
    let nonce = pattern(v.block_size(), 26);
    let data = pattern(40, 27);
    let a = ctr_crypt(v, &key, &nonce, &data).expect("lengths are right");
    let b = ctr_crypt(v, &key, &nonce, &data).expect("lengths are right");
    assert_eq!(a, b);
}

#[test]
fn ctr_length_errors() {
    let v = Variant::Speck128_256;
    match ctr_crypt(v, &[0u8; 31], &[0u8; 16], &[1, 2, 3]) {
        Err(SpeckError::InvalidKeyLength) => (),
        _ => panic!("a short key must be rejected"),
    }
    match ctr_crypt(v, &[0u8; 32], &[0u8; 15], &[1, 2, 3]) {
        Err(SpeckError::InvalidNonceLength) => (),
        _ => panic!("a short nonce must be rejected"),
    }
}
