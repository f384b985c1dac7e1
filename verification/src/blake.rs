//! BLAKE3 hashing, provided by the `blake3` crate.

use vstd::prelude::*;

verus! {

/// The 32-byte BLAKE3 digest of a byte string (the default, unkeyed mode).
pub uninterp spec fn blake3_digest(data: Seq<u8>) -> Seq<u8>;

/// Calls `blake3::hash` and returns the bytes of the resulting `Hash`.
/// The contract claims only that the result is the BLAKE3 digest of `data`,
/// a function of `data` alone; the crate documents that feeding the same
/// bytes through `Hasher::update` in pieces gives the same digest.
#[verifier::external_body]
pub(crate) fn blake3_hash(data: &[u8]) -> (r: [u8; 32])
    ensures
        r@ == blake3_digest(data@),
{
    *blake3::hash(data).as_bytes()
}

} // verus!
