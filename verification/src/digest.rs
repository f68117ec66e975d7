//! SHA-256, which is what a record's identity is cut from.

use sha2::{Digest, Sha256};
use vstd::prelude::*;

verus! {

/// The SHA-256 digest of some bytes, as `sha2` computes it.
pub uninterp spec fn sha256(data: Seq<u8>) -> Seq<u8>;

/// `sha2::Sha256::digest`: the thirty-two byte SHA-256 digest of `data`.
/// Trusted: the result is the digest of exactly these bytes, and it is
/// thirty-two bytes long, as the algorithm fixes it.
#[verifier::external_body]
pub(crate) fn sha256_digest(data: &[u8]) -> (d: Vec<u8>)
    ensures
        d@ == sha256(data@),
        d@.len() == 32,
{
    Sha256::digest(data).to_vec()
}

} // verus!
