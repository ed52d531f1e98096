//! The ten members of the Speck family.
//!
//! Each variant is a static descriptor: word size, number of key words,
//! number of rounds. Block size is two words; key size is `key_words`
//! words. The descriptors are fixed constants, never derived at runtime.

use crate::bytes::pow256;
use crate::words::round_params_wf;
use vstd::prelude::*;

verus! {

/// A member of the Speck family, named `Speck<block bits>_<key bits>`.
#[derive(Clone, Copy, Debug, PartialEq, Eq, Structural)]
pub enum Variant {
    Speck32_64,
    Speck48_72,
    Speck48_96,
    Speck64_96,
    Speck64_128,
    Speck96_96,
    Speck96_144,
    Speck128_128,
    Speck128_192,
    Speck128_256,
}

/// The size of one cipher word, in bits.
pub open spec fn word_bits(v: Variant) -> u64 {
    match v {
        Variant::Speck32_64 => 16,
        Variant::Speck48_72 => 24,
        Variant::Speck48_96 => 24,
        Variant::Speck64_96 => 32,
        Variant::Speck64_128 => 32,
        Variant::Speck96_96 => 48,
        Variant::Speck96_144 => 48,
        Variant::Speck128_128 => 64,
        Variant::Speck128_192 => 64,
        Variant::Speck128_256 => 64,
    }
}

/// The number of words in the key.
pub open spec fn key_words(v: Variant) -> nat {
    match v {
        Variant::Speck32_64 => 4,
        Variant::Speck48_72 => 3,
        Variant::Speck48_96 => 4,
        Variant::Speck64_96 => 3,
        Variant::Speck64_128 => 4,
        Variant::Speck96_96 => 2,
        Variant::Speck96_144 => 3,
        Variant::Speck128_128 => 2,
        Variant::Speck128_192 => 3,
        Variant::Speck128_256 => 4,
    }
}

/// The number of rounds, and equally the number of round keys.
pub open spec fn rounds(v: Variant) -> nat {
    match v {
        Variant::Speck32_64 => 22,
        Variant::Speck48_72 => 22,
        Variant::Speck48_96 => 23,
        Variant::Speck64_96 => 26,
        Variant::Speck64_128 => 27,
        Variant::Speck96_96 => 28,
        Variant::Speck96_144 => 29,
        Variant::Speck128_128 => 32,
        Variant::Speck128_192 => 33,
        Variant::Speck128_256 => 34,
    }
}

/// The first rotation amount: 7 for 16-bit words, 8 otherwise.
pub open spec fn alpha(v: Variant) -> u64 {
    if word_bits(v) == 16 {
        7
    } else {
        8
    }
}

/// The second rotation amount: 2 for 16-bit words, 3 otherwise.
pub open spec fn beta(v: Variant) -> u64 {
    if word_bits(v) == 16 {
        2
    } else {
        3
    }
}

/// The mask of a word: `2^word_bits - 1`.
pub open spec fn mask(v: Variant) -> u64 {
    match word_bits(v) {
        16 => 0xFFFF,
        24 => 0xFF_FFFF,
        32 => 0xFFFF_FFFF,
        48 => 0xFFFF_FFFF_FFFF,
        _ => 0xFFFF_FFFF_FFFF_FFFF,
    }
}

/// The size of one word, in bytes.
pub open spec fn word_bytes(v: Variant) -> nat {
    (word_bits(v) as nat) / 8
}

/// The size of one block (two words), in bytes. The nonce of the CTR and
/// AEAD constructions has this same size.
pub open spec fn block_bytes(v: Variant) -> nat {
    2 * word_bytes(v)
}

/// The size of the key, in bytes.
pub open spec fn key_bytes(v: Variant) -> nat {
    key_words(v) * word_bytes(v)
}

/// The variant descriptors are well-formed: the rotation constants and mask
/// fit the word size, a word's bytes exactly hold a word's bits, and every
/// variant has at least one round and two key words.
pub proof fn lemma_variant_wf(v: Variant)
    ensures
        round_params_wf(alpha(v), beta(v), word_bits(v), mask(v)),
        pow256(word_bytes(v)) == mask(v) + 1,
        1 <= word_bytes(v) <= 8,
        2 <= key_words(v) <= 4,
        1 <= rounds(v) <= 34,
        block_bytes(v) <= 16,
        key_bytes(v) <= 32,
{
    reveal_with_fuel(pow256, 9);
    match v {
        Variant::Speck32_64 => assert(key_bytes(v) == 8),
        Variant::Speck48_72 => assert(key_bytes(v) == 9),
        Variant::Speck48_96 => assert(key_bytes(v) == 12),
        Variant::Speck64_96 => assert(key_bytes(v) == 12),
        Variant::Speck64_128 => assert(key_bytes(v) == 16),
        Variant::Speck96_96 => assert(key_bytes(v) == 12),
        Variant::Speck96_144 => assert(key_bytes(v) == 18),
        Variant::Speck128_128 => assert(key_bytes(v) == 16),
        Variant::Speck128_192 => assert(key_bytes(v) == 24),
        Variant::Speck128_256 => assert(key_bytes(v) == 32),
    }
}

/// The parameters of one variant, fetched once per operation.
pub struct Params {
    pub alpha: u64,
    pub beta: u64,
    pub wbits: u64,
    pub mask: u64,
    pub n_rounds: usize,
    pub n_key_words: usize,
    pub n_word_bytes: usize,
}

/// Returns the variant's descriptor.
pub fn params(v: Variant) -> (p: Params)
    ensures
        p.alpha == alpha(v),
        p.beta == beta(v),
        p.wbits == word_bits(v),
        p.mask == mask(v),
        p.n_rounds as nat == rounds(v),
        p.n_key_words as nat == key_words(v),
        p.n_word_bytes as nat == word_bytes(v),
{
    match v {
        Variant::Speck32_64 => (Params {
            alpha: 7, beta: 2, wbits: 16, mask: 0xFFFF,
            n_rounds: 22, n_key_words: 4, n_word_bytes: 2,
        }),
        Variant::Speck48_72 => (Params {
            alpha: 8, beta: 3, wbits: 24, mask: 0xFF_FFFF,
            n_rounds: 22, n_key_words: 3, n_word_bytes: 3,
        }),
        Variant::Speck48_96 => (Params {
            alpha: 8, beta: 3, wbits: 24, mask: 0xFF_FFFF,
            n_rounds: 23, n_key_words: 4, n_word_bytes: 3,
        }),
        Variant::Speck64_96 => (Params {
            alpha: 8, beta: 3, wbits: 32, mask: 0xFFFF_FFFF,
            n_rounds: 26, n_key_words: 3, n_word_bytes: 4,
        }),
        Variant::Speck64_128 => (Params {
            alpha: 8, beta: 3, wbits: 32, mask: 0xFFFF_FFFF,
            n_rounds: 27, n_key_words: 4, n_word_bytes: 4,
        }),
        Variant::Speck96_96 => (Params {
            alpha: 8, beta: 3, wbits: 48, mask: 0xFFFF_FFFF_FFFF,
            n_rounds: 28, n_key_words: 2, n_word_bytes: 6,
        }),
        Variant::Speck96_144 => (Params {
            alpha: 8, beta: 3, wbits: 48, mask: 0xFFFF_FFFF_FFFF,
            n_rounds: 29, n_key_words: 3, n_word_bytes: 6,
        }),
        Variant::Speck128_128 => (Params {
            alpha: 8, beta: 3, wbits: 64, mask: 0xFFFF_FFFF_FFFF_FFFF,
            n_rounds: 32, n_key_words: 2, n_word_bytes: 8,
        }),
        Variant::Speck128_192 => (Params {
            alpha: 8, beta: 3, wbits: 64, mask: 0xFFFF_FFFF_FFFF_FFFF,
            n_rounds: 33, n_key_words: 3, n_word_bytes: 8,
        }),
        Variant::Speck128_256 => (Params {
            alpha: 8, beta: 3, wbits: 64, mask: 0xFFFF_FFFF_FFFF_FFFF,
            n_rounds: 34, n_key_words: 4, n_word_bytes: 8,
        }),
    }
}

impl Variant {
    /// The block size in bytes, as the host sees it.
    pub fn block_size(self) -> (n: usize)
        ensures
            n as nat == block_bytes(self),
    {
        let p = params(self);
        2 * p.n_word_bytes
    }

    /// The key size in bytes, as the host sees it.
    pub fn key_size(self) -> (n: usize)
        ensures
            n as nat == key_bytes(self),
    {
        let p = params(self);
        proof {
            lemma_variant_wf(self);
        }
        p.n_key_words * p.n_word_bytes
    }
}

} // verus!
