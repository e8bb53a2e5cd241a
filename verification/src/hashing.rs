//! SHA-512, from the sha2 crate.
use sha2::{Digest, Sha512};
use vstd::prelude::*;

verus! {

/// The 64-byte SHA-512 digest of `data`.
pub uninterp spec fn sha512(data: Seq<u8>) -> Seq<u8>;

/// Calls sha2's `Sha512::digest`; the contract says only that the digest is
/// the one SHA-512 gives for these bytes.
#[verifier::external_body]
pub(crate) fn sha512_digest(data: &[u8]) -> (r: [u8; 64])
    ensures
        r@ == sha512(data@),
{
    let mut out = [0u8; 64];
    out.copy_from_slice(Sha512::digest(data).as_slice());
    out
}

} // verus!
