//! SHA-256, from the `sha2` crate.
//!
//! The hash is not written out here: its value is named [`sha256`], and the
//! one function that computes it says that it returns that name of its input.

use vstd::prelude::*;
use sha2::{Digest, Sha256};

verus! {

/// SHA-256 of a byte string, as the `sha2` crate computes it.
pub uninterp spec fn sha256(data: Seq<u8>) -> Seq<u8>;

/// `Sha256::digest` over `data`: the 32-byte SHA-256 of exactly these bytes.
///
/// Trusted: the contract claims that the digest is the same function of the
/// input bytes on every call, and no more; nothing of what SHA-256 computes
/// is stated.
#[verifier::external_body]
pub(crate) fn sha256_digest(data: &[u8]) -> (digest: [u8; 32])
    ensures
        digest@ == sha256(data@),
{
    Sha256::digest(data).into()
}

} // verus!
