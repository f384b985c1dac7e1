//! Randomness from the thread-local generator of the `rand` crate.
//!
//! Nothing is promised of the values beyond their type and range: every
//! caller is verified for all of them.

use vstd::prelude::*;
use rand::Rng;
use rand::RngCore;

verus! {

/// Fills a fresh buffer of `len` bytes with `RngCore::fill_bytes` on
/// `rand::thread_rng()`. Only the length is promised.
#[verifier::external_body]
pub(crate) fn random_bytes(len: usize) -> (r: Vec<u8>)
    ensures
        r@.len() == len,
{
    let mut buf = vec![0u8; len];
    rand::thread_rng().fill_bytes(&mut buf);
    buf
}

/// A uniformly random `u32` from `Rng::gen` on `rand::thread_rng()`.
#[verifier::external_body]
pub(crate) fn random_u32() -> u32 {
    rand::thread_rng().gen::<u32>()
}

/// A uniformly random `u64` from `Rng::gen` on `rand::thread_rng()`.
#[verifier::external_body]
pub(crate) fn random_u64() -> u64 {
    rand::thread_rng().gen::<u64>()
}

/// `Rng::gen_range(lo..hi)` on `rand::thread_rng()`, which panics on an
/// empty range and otherwise returns a value in `lo..hi`.
#[verifier::external_body]
pub(crate) fn random_range(lo: usize, hi: usize) -> (r: usize)
    requires
        lo < hi,
    ensures
        lo <= r < hi,
{
    rand::thread_rng().gen_range(lo..hi)
}

/// `Rng::gen_ratio(numerator, denominator)` on `rand::thread_rng()`: true
/// with probability `numerator / denominator`; always true when the two are
/// equal and always false when the numerator is zero. It panics when the
/// denominator is zero or below the numerator.
#[verifier::external_body]
pub(crate) fn random_ratio(numerator: u32, denominator: u32) -> (r: bool)
    requires
        0 < denominator,
        numerator <= denominator,
    ensures
        numerator == denominator ==> r,
        numerator == 0 ==> !r,
{
    rand::thread_rng().gen_ratio(numerator, denominator)
}

} // verus!
