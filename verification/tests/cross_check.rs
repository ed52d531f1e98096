//! Cross-checks against the RustCrypto `speck-cipher` and `ctr` crates:
//! the block operations, byte conventions and counter semantics of this
//! library must agree with theirs on every shared variant.

use cipher::{BlockCipherDecrypt, BlockCipherEncrypt, KeyInit, KeyIvInit, StreamCipher};
use speck_ex::{ctr_crypt, SpeckCipher, Variant};

fn pattern(len: usize, seed: u8) -> Vec<u8> {
    (0..len).map(|i| (i as u8).wrapping_mul(167).wrapping_add(seed)).collect()
}

fn check_blocks<C: BlockCipherEncrypt + BlockCipherDecrypt + KeyInit>(v: Variant) {
    let key = pattern(v.key_size(), 41);
    let block = pattern(v.block_size(), 11);
    let ours = SpeckCipher::init(v, &key).expect("key length is right");
    let theirs = C::new_from_slice(&key).expect("key length is right");

    let our_ct = ours.encrypt_block(&block).expect("block length is right");
    let mut their_block = cipher::Array::try_from(&block[..]).expect("block length is right");
    theirs.encrypt_block(&mut their_block);
    assert_eq!(our_ct.as_slice(), their_block.as_slice());

    let our_pt = ours.decrypt_block(&our_ct).expect("block length is right");
    theirs.decrypt_block(&mut their_block);
    assert_eq!(our_pt.as_slice(), their_block.as_slice());
    assert_eq!(our_pt, block);
}

#[test]
fn blocks_match_speck_cipher_crate() {
    check_blocks::<speck_cipher::Speck32_64>(Variant::Speck32_64);
    check_blocks::<speck_cipher::Speck48_72>(Variant::Speck48_72);
    check_blocks::<speck_cipher::Speck48_96>(Variant::Speck48_96);
    check_blocks::<speck_cipher::Speck64_96>(Variant::Speck64_96);
    check_blocks::<speck_cipher::Speck64_128>(Variant::Speck64_128);
    check_blocks::<speck_cipher::Speck96_96>(Variant::Speck96_96);
    check_blocks::<speck_cipher::Speck96_144>(Variant::Speck96_144);
    check_blocks::<speck_cipher::Speck128_128>(Variant::Speck128_128);
    check_blocks::<speck_cipher::Speck128_192>(Variant::Speck128_192);
    check_blocks::<speck_cipher::Speck128_256>(Variant::Speck128_256);
}

fn check_ctr<S: KeyIvInit + StreamCipher>(v: Variant, data_len: usize) {
    let key = pattern(v.key_size(), 91);
    let nonce = pattern(v.block_size(), 3);
    let data = pattern(data_len, 57);

    let ours = ctr_crypt(v, &key, &nonce, &data).expect("key and nonce lengths are right");

    let mut theirs = data.clone();
    let mut stream = S::new_from_slices(&key, &nonce).expect("lengths are right");
    stream.apply_keystream(&mut theirs);

    assert_eq!(ours, theirs);
}

#[test]
fn ctr_matches_ctr_crate() {
    // Whole blocks, a partial final block, and less than one block.
    for len in [0usize, 1, 4, 7, 8, 15, 16, 33, 100] {
        check_ctr::<ctr::Ctr32BE<speck_cipher::Speck32_64>>(Variant::Speck32_64, len);
        check_ctr::<ctr::Ctr64BE<speck_cipher::Speck64_96>>(Variant::Speck64_96, len);
        check_ctr::<ctr::Ctr64BE<speck_cipher::Speck64_128>>(Variant::Speck64_128, len);
        check_ctr::<ctr::Ctr128BE<speck_cipher::Speck128_128>>(Variant::Speck128_128, len);
        check_ctr::<ctr::Ctr128BE<speck_cipher::Speck128_192>>(Variant::Speck128_192, len);
        check_ctr::<ctr::Ctr128BE<speck_cipher::Speck128_256>>(Variant::Speck128_256, len);
    }
}

#[test]
fn ctr_counter_wraps_at_the_block_width() {
    // A nonce of all ones is the largest counter value: the second block
    // must wrap to counter zero, exactly as the ctr crate wraps.
    let v = Variant::Speck64_128;
    let key = pattern(v.key_size(), 8);
    let nonce = vec![0xFFu8; v.block_size()];
    let data = vec![0u8; 3 * v.block_size()];

    let ours = ctr_crypt(v, &key, &nonce, &data).expect("lengths are right");

    let mut theirs = data.clone();
    let mut stream = ctr::Ctr64BE::<speck_cipher::Speck64_128>::new_from_slices(&key, &nonce)
        .expect("lengths are right");
    stream.apply_keystream(&mut theirs);

    assert_eq!(ours, theirs);
}
