//! The hash that names a contract's methods.

use vstd::prelude::*;

verus! {

/// The 32 bytes of the BLAKE2b-256 digest of `data`.
pub uninterp spec fn blake2_256_digest(data: Seq<u8>) -> Seq<u8>;

/// The BLAKE2b-256 digest of `data`.
///
/// Trusted: calls `sp_core::blake2_256`. The contract gives the digest its
/// name; that it has 32 bytes is in the type.
#[verifier::external_body]
pub(crate) fn blake2_256(data: &[u8]) -> (digest: [u8; 32])
    ensures
        digest@ == blake2_256_digest(data@),
{
    sp_core::blake2_256(data)
}

} // verus!
