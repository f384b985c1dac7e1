//! ChaCha20-Poly1305 from the `chacha20poly1305` crate.

use vstd::prelude::*;
use chacha20poly1305::aead::{Aead, KeyInit};
use chacha20poly1305::{ChaCha20Poly1305, Key, Nonce};

verus! {

/// Ciphertext (with its 16-byte tag appended) of ChaCha20-Poly1305 under a
/// 32-byte key and a 12-byte nonce, without associated data.
pub uninterp spec fn chacha_seal(key: Seq<u8>, nonce: Seq<u8>, plaintext: Seq<u8>) -> Seq<u8>;

/// What ChaCha20-Poly1305 decryption returns for a key, nonce and sealed
/// message: the plaintext, or `None` when the tag does not authenticate.
pub uninterp spec fn chacha_open(key: Seq<u8>, nonce: Seq<u8>, sealed: Seq<u8>) -> Option<
    Seq<u8>,
>;

/// Largest plaintext length the cipher accepts, plus one: encryption
/// refuses buffers of `64 * u32::MAX` bytes or more.
pub open spec fn aead_limit() -> int {
    64int * 0xFFFF_FFFFint
}

/// `Aead::encrypt` of `ChaCha20Poly1305` with the given key and nonce.
/// Claims: the result is the ciphertext named by `chacha_seal`, it is 16
/// bytes longer than the plaintext (the tag is appended), and decrypting it
/// with the same key and nonce gives the plaintext back. The crate returns an
/// error only for plaintexts at or above `aead_limit()`, which the
/// precondition excludes.
#[verifier::external_body]
pub(crate) fn aead_seal(key: &[u8; 32], nonce: &[u8], plaintext: &[u8]) -> (r: Vec<u8>)
    requires
        nonce@.len() == 12,
        plaintext@.len() < aead_limit(),
    ensures
        r@ == chacha_seal(key@, nonce@, plaintext@),
        r@.len() == plaintext@.len() + 16,
        chacha_open(key@, nonce@, r@) == Some(plaintext@),
{
    let cipher = ChaCha20Poly1305::new(Key::from_slice(key));
    cipher.encrypt(Nonce::from_slice(nonce), plaintext).unwrap()
}

/// `Aead::decrypt` of `ChaCha20Poly1305` with the given key and nonce, with
/// the error mapped to `None`. Claims: the result is the one named by
/// `chacha_open`, and a plaintext is 16 bytes shorter than the sealed input.
#[verifier::external_body]
pub(crate) fn aead_open(key: &[u8; 32], nonce: &[u8], sealed: &[u8]) -> (r: Option<Vec<u8>>)
    requires
        nonce@.len() == 12,
    ensures
        match r {
            Some(p) => chacha_open(key@, nonce@, sealed@) == Some(p@) && p@.len() + 16
                == sealed@.len(),
            None => chacha_open(key@, nonce@, sealed@) is None,
        },
{
    let cipher = ChaCha20Poly1305::new(Key::from_slice(key));
    cipher.decrypt(Nonce::from_slice(nonce), sealed).ok()
}

} // verus!
