//! X25519 key agreement from the `x25519-dalek` crate.

use vstd::prelude::*;
use x25519_dalek::{PublicKey, StaticSecret};

verus! {

/// The X25519 public key of a 32-byte secret (`PublicKey::from(&secret)`).
pub uninterp spec fn x25519_public(secret: Seq<u8>) -> Seq<u8>;

/// The X25519 shared secret of a 32-byte secret and a peer's public key.
pub uninterp spec fn x25519_shared(secret: Seq<u8>, peer_public: Seq<u8>) -> Seq<u8>;

/// `StaticSecret::random_from_rng(rand::thread_rng())`, as bytes. Nothing is
/// promised of the value.
#[verifier::external_body]
pub(crate) fn x25519_random_secret() -> [u8; 32] {
    StaticSecret::random_from_rng(rand::thread_rng()).to_bytes()
}

/// `PublicKey::from(&StaticSecret::from(*secret)).to_bytes()`: the public
/// key named by `x25519_public`.
#[verifier::external_body]
pub(crate) fn x25519_public_key(secret: &[u8; 32]) -> (r: [u8; 32])
    ensures
        r@ == x25519_public(secret@),
{
    PublicKey::from(&StaticSecret::from(*secret)).to_bytes()
}

/// `StaticSecret::diffie_hellman` of `secret` with the peer's public key.
/// Claims: the result is the one named by `x25519_shared`, and (key
/// agreement, as the crate documents) when the peer's public key belongs to a
/// secret `other`, the result is what `other` computes with the public key of
/// `secret`.
#[verifier::external_body]
pub(crate) fn x25519_agree(secret: &[u8; 32], peer_public: &[u8; 32]) -> (r: [u8; 32])
    ensures
        r@ == x25519_shared(secret@, peer_public@),
        forall|other: Seq<u8>|
            #![trigger x25519_public(other)]
            other.len() == 32 && x25519_public(other) == peer_public@ ==> r@ == x25519_shared(
                other,
                x25519_public(secret@),
            ),
{
    StaticSecret::from(*secret).diffie_hellman(&PublicKey::from(*peer_public)).to_bytes()
}

} // verus!
