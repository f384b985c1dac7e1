//! Session keys (BLAKE3 key derivation, ChaCha20-Poly1305 sealing) and the
//! X25519 and ML-KEM key pairs.

use vstd::prelude::*;
use crate::aead::{aead_limit, aead_open, aead_seal, chacha_open, chacha_seal};
use crate::blake::{blake3_digest, blake3_hash};
use crate::bytes::{append_bytes, copy_range};
use crate::entropy::random_bytes;
use crate::x25519::{x25519_agree, x25519_public, x25519_public_key, x25519_random_secret, x25519_shared};

verus! {

/// Length of the nonce that prefixes every sealed message.
pub const NONCE_LEN: usize = 12;

/// The domain-separation label mixed into session-key derivation:
/// the ASCII bytes of `DCP-SESSION-KEY-V1`.
pub open spec fn session_key_label() -> Seq<u8> {
    seq![68u8, 67, 80, 45, 83, 69, 83, 83, 73, 79, 78, 45, 75, 69, 89, 45, 86, 49]
}

/// The session key derived from a shared secret.
pub open spec fn derive_session_key(shared: Seq<u8>) -> Seq<u8> {
    blake3_digest(shared + session_key_label())
}

/// What decrypting `message` under `key` yields: `None` when it is shorter
/// than a nonce, else the opening of the bytes after the nonce.
pub open spec fn open_message(key: Seq<u8>, message: Seq<u8>) -> Option<Seq<u8>> {
    if message.len() < 12 {
        None
    } else {
        chacha_open(key, message.subrange(0, 12), message.subrange(12, message.len() as int))
    }
}

/// A message framed as a 12-byte nonce followed by a body opens as the body
/// opened under that nonce: decryption reads back the framing that
/// encryption writes.
pub proof fn lemma_open_framed(key: Seq<u8>, nonce: Seq<u8>, body: Seq<u8>)
    requires
        nonce.len() == 12,
    ensures
        open_message(key, nonce + body) == chacha_open(key, nonce, body),
{
    let m = nonce + body;
    assert(m.subrange(0, 12) =~= nonce);
    assert(m.subrange(12, m.len() as int) =~= body);
}

/// `message` is the nonce it starts with followed by the sealing of
/// `plaintext` under `key` and that nonce.
pub open spec fn is_sealed_message(key: Seq<u8>, plaintext: Seq<u8>, message: Seq<u8>) -> bool {
    &&& message.len() == plaintext.len() + 28
    &&& message.subrange(12, message.len() as int) == chacha_seal(
        key,
        message.subrange(0, 12),
        plaintext,
    )
}

/// The plaintext view of an optional byte buffer.
pub open spec fn opt_bytes(o: Option<Vec<u8>>) -> Option<Seq<u8>> {
    match o {
        Some(v) => Some(v@),
        None => None,
    }
}

fn session_key_label_bytes() -> (r: Vec<u8>)
    ensures
        r@ == session_key_label(),
{
    let r: Vec<u8> = vec![68u8, 67, 80, 45, 83, 69, 83, 83, 73, 79, 78, 45, 75, 69, 89, 45, 86, 49];
    assert(r@ =~= session_key_label());
    r
}

/// A DCP session key and its nonce counter.
pub struct SessionKey {
    pub key: [u8; 32],
    pub nonce_counter: u64,
}

impl SessionKey {
    /// Derives the session key from an X25519 shared secret: the BLAKE3
    /// digest of the secret followed by the label; the counter starts at 0.
    pub fn from_shared_secret(shared: &[u8; 32]) -> (r: Self)
        ensures
            r.key@ == derive_session_key(shared@),
            r.nonce_counter == 0,
    {
        let mut input: Vec<u8> = Vec::new();
        append_bytes(&mut input, shared.as_slice());
        let label = session_key_label_bytes();
        append_bytes(&mut input, label.as_slice());
        let key = blake3_hash(input.as_slice());
        SessionKey { key, nonce_counter: 0 }
    }

    /// Seals `plaintext` under this key with the given 12-byte nonce and
    /// returns the nonce followed by the ciphertext.
    pub fn encrypt_with_nonce(&self, nonce: &[u8], plaintext: &[u8]) -> (r: Vec<u8>)
        requires
            nonce@.len() == 12,
            plaintext@.len() < aead_limit(),
        ensures
            r@ == nonce@ + chacha_seal(self.key@, nonce@, plaintext@),
            is_sealed_message(self.key@, plaintext@, r@),
            open_message(self.key@, r@) == Some(plaintext@),
    {
        let sealed = aead_seal(&self.key, nonce, plaintext);
        let mut r: Vec<u8> = Vec::new();
        append_bytes(&mut r, nonce);
        append_bytes(&mut r, sealed.as_slice());
        assert(r@.subrange(0, 12) =~= nonce@);
        assert(r@.subrange(12, r@.len() as int) =~= sealed@);
        r
    }

    /// Seals `plaintext` under this key with a fresh random nonce and returns
    /// the nonce followed by the ciphertext; decrypting the result with the
    /// same key gives `plaintext` back.
    pub fn encrypt(&mut self, plaintext: &[u8]) -> (r: Vec<u8>)
        requires
            plaintext@.len() < aead_limit(),
        ensures
            *final(self) == *old(self),
            is_sealed_message(old(self).key@, plaintext@, r@),
            open_message(old(self).key@, r@) == Some(plaintext@),
    {
        let nonce = random_bytes(NONCE_LEN);
        self.encrypt_with_nonce(nonce.as_slice(), plaintext)
    }

    /// Opens a message made of a 12-byte nonce and a ciphertext; `None` when
    /// it is too short or does not authenticate. A message with no room for
    /// the nonce and the 16-byte tag (under 28 bytes) never opens, and an
    /// opened message is 28 bytes longer than its plaintext.
    pub fn decrypt(&mut self, ciphertext: &[u8]) -> (r: Option<Vec<u8>>)
        ensures
            *final(self) == *old(self),
            opt_bytes(r) == open_message(old(self).key@, ciphertext@),
            ciphertext@.len() < 28 ==> r is None,
            r matches Some(p) ==> p@.len() + 28 == ciphertext@.len(),
    {
        if ciphertext.len() < NONCE_LEN {
            return None;
        }
        let nonce = copy_range(ciphertext, 0, NONCE_LEN);
        let body = copy_range(ciphertext, NONCE_LEN, ciphertext.len());
        let r = aead_open(&self.key, nonce.as_slice(), body.as_slice());
        assert(body@.len() == ciphertext@.len() - 12);
        r
    }

    /// Advances the nonce counter and returns its new value.
    pub fn next_nonce(&mut self) -> (r: u64)
        requires
            old(self).nonce_counter < u64::MAX,
        ensures
            final(self).key == old(self).key,
            final(self).nonce_counter == old(self).nonce_counter + 1,
            r == final(self).nonce_counter,
    {
        self.nonce_counter = self.nonce_counter + 1;
        self.nonce_counter
    }
}

/// An X25519 key pair, held as the secret and public key bytes.
pub struct X25519KeyPair {
    pub secret: [u8; 32],
    pub public: [u8; 32],
}

impl X25519KeyPair {
    /// The public key belongs to the secret.
    pub open spec fn wf(&self) -> bool {
        self.public@ == x25519_public(self.secret@)
    }

    /// A key pair with a fresh random secret.
    pub fn generate() -> (r: Self)
        ensures
            r.wf(),
    {
        let secret = x25519_random_secret();
        let public = x25519_public_key(&secret);
        X25519KeyPair { secret, public }
    }

    /// The public key bytes.
    pub fn public_bytes(&self) -> (r: [u8; 32])
        ensures
            r == self.public,
    {
        self.public
    }

    /// The shared secret with a peer's public key. Both sides of an exchange
    /// compute the same value: when the peer's key belongs to a secret
    /// `other`, the result is what `other` computes with this pair's public
    /// key.
    pub fn diffie_hellman(&self, peer_public: &[u8; 32]) -> (r: [u8; 32])
        ensures
            r@ == x25519_shared(self.secret@, peer_public@),
            self.wf() ==> forall|other: Seq<u8>|
                #![trigger x25519_public(other)]
                other.len() == 32 && x25519_public(other) == peer_public@ ==> r@ == x25519_shared(
                    other,
                    self.public@,
                ),
    {
        x25519_agree(&self.secret, peer_public)
    }
}

/// An ML-KEM-768 key pair (1184-byte public key, 2400-byte secret key),
/// filled with random bytes as a stand-in.
pub struct MlKemKeyPair {
    pub public: Vec<u8>,
    pub secret: Vec<u8>,
}

impl MlKemKeyPair {
    /// A key pair of the ML-KEM-768 sizes filled with random bytes.
    pub fn generate() -> (r: Self)
        ensures
            r.public@.len() == 1184,
            r.secret@.len() == 2400,
    {
        let public = random_bytes(1184);
        let secret = random_bytes(2400);
        MlKemKeyPair { public, secret }
    }
}

} // verus!
