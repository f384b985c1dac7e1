use chacha20poly1305::aead::{Aead, KeyInit};
use chacha20poly1305::{ChaCha20Poly1305, Nonce};
use dcp_node::crypto::{MlKemKeyPair, SessionKey, X25519KeyPair};

#[test]
fn test_x25519() {
    let alice = X25519KeyPair::generate();
    let bob = X25519KeyPair::generate();

    let shared_a = alice.diffie_hellman(&bob.public_bytes());
    let shared_b = bob.diffie_hellman(&alice.public_bytes());

    assert_eq!(shared_a, shared_b);
}

#[test]
fn test_session_key_encryption() {
    let mut key1 = SessionKey::from_shared_secret(&[1u8; 32]);
    let data = b"Hello, DCP!";

    let encrypted = key1.encrypt(data);
    let decrypted = key1.decrypt(&encrypted).unwrap();

    assert_eq!(decrypted, data);
}

#[test]
fn session_key_is_the_labelled_digest() {
    let key = SessionKey::from_shared_secret(&[1u8; 32]);
    let mut hasher = blake3::Hasher::new();
    hasher.update(&[1u8; 32]);
    hasher.update(b"DCP-SESSION-KEY-V1");
    assert_eq!(&key.key, hasher.finalize().as_bytes());
    assert_ne!(key.key, [1u8; 32]);
    assert_eq!(key.nonce_counter, 0);
}

#[test]
fn public_key_belongs_to_the_secret() {
    let pair = X25519KeyPair::generate();
    let expected = x25519_dalek::PublicKey::from(&x25519_dalek::StaticSecret::from(pair.secret));
    assert_eq!(pair.public_bytes(), expected.to_bytes());
    assert_eq!(pair.public_bytes(), pair.public);
}

#[test]
fn sealed_message_is_nonce_then_ciphertext() {
    let key = SessionKey::from_shared_secret(&[7u8; 32]);
    let nonce = [3u8; 12];
    let sealed = key.encrypt_with_nonce(&nonce, b"abc");
    assert_eq!(sealed.len(), 12 + 3 + 16);
    assert_eq!(&sealed[..12], &nonce);
    let cipher = ChaCha20Poly1305::new_from_slice(&key.key).unwrap();
    let expected = cipher.encrypt(Nonce::from_slice(&nonce), &b"abc"[..]).unwrap();
    assert_eq!(&sealed[12..], expected.as_slice());
}

#[test]
fn encryption_is_randomised_but_both_decrypt() {
    let mut key = SessionKey::from_shared_secret(&[2u8; 32]);
    let a = key.encrypt(b"same");
    let b = key.encrypt(b"same");
    assert_eq!(key.decrypt(&a).unwrap(), b"same");
    assert_eq!(key.decrypt(&b).unwrap(), b"same");
    assert_eq!(key.nonce_counter, 0);
}

#[test]
fn empty_plaintext_round_trips() {
    let mut key = SessionKey::from_shared_secret(&[4u8; 32]);
    let sealed = key.encrypt(&[]);
    assert_eq!(sealed.len(), 28);
    assert_eq!(key.decrypt(&sealed), Some(vec![]));
}

#[test]
fn short_message_does_not_decrypt() {
    let mut key = SessionKey::from_shared_secret(&[1u8; 32]);
    assert_eq!(key.decrypt(&[0u8; 11]), None);
    assert_eq!(key.decrypt(&[]), None);
    let sealed = key.encrypt(b"");
    assert_eq!(sealed.len(), 28);
    assert_eq!(key.decrypt(&sealed[..27]), None);
    assert_eq!(key.decrypt(&sealed[..12]), None);
}

#[test]
fn tampered_or_foreign_message_does_not_decrypt() {
    let mut key = SessionKey::from_shared_secret(&[1u8; 32]);
    let mut other = SessionKey::from_shared_secret(&[9u8; 32]);
    let mut sealed = key.encrypt(b"Hello, DCP!");
    assert_eq!(other.decrypt(&sealed), None);
    let last = sealed.len() - 1;
    sealed[last] ^= 1;
    assert_eq!(key.decrypt(&sealed), None);
}

#[test]
fn nonce_counter_counts_up() {
    let mut key = SessionKey::from_shared_secret(&[1u8; 32]);
    assert_eq!(key.next_nonce(), 1);
    assert_eq!(key.next_nonce(), 2);
    assert_eq!(key.nonce_counter, 2);
}

#[test]
fn ml_kem_sizes() {
    let pair = MlKemKeyPair::generate();
    assert_eq!(pair.public.len(), 1184);
    assert_eq!(pair.secret.len(), 2400);
}
