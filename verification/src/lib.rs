//! A parameterized implementation of the Speck family of ARX block ciphers,
//! together with a big-endian counter (CTR) stream mode and a nonce-based
//! AEAD construction that authenticates with a Poly1305 tag keyed from the
//! cipher's own keystream.
//!
//! Every variant's round function, key schedule, CTR keystream and AEAD
//! composition are verified against mathematical models; the Poly1305
//! compression itself is delegated to the `poly1305` crate behind a single
//! trusted wrapper.

use vstd::prelude::*;

pub mod aead;
pub mod bytes;
pub mod ctr_mode;
pub mod mac;
pub mod speck;
pub mod variant;
pub mod words;

pub use aead::{aead_open, aead_seal};
pub use ctr_mode::ctr_crypt;
pub use speck::SpeckCipher;
pub use variant::Variant;


verus! {

/// The failures that any operation of this library can report.
///
/// Length checks are performed before any cryptographic work; authentication
/// failure is reported before any plaintext is produced. `AllocationFailed`
/// is part of the error surface for host bindings that report allocation
/// failure; the library's own operations never return it, since allocation
/// through `Vec` aborts rather than fails.
#[derive(Clone, Copy, Debug, PartialEq, Eq, Structural)]
pub enum SpeckError {
    /// The key's length does not equal the variant's key size.
    InvalidKeyLength,
    /// The block's length does not equal the variant's block size.
    InvalidBlockLength,
    /// The nonce's length does not equal the variant's block size.
    InvalidNonceLength,
    /// An output buffer could not be allocated (host bindings only).
    AllocationFailed,
    /// The supplied tag does not match the tag of the ciphertext and
    /// associated data.
    AuthenticationFailed,
}

} // verus!
