//! The hash primitive behind the key schedule and the key derivation.

use sha3::{Digest, Sha3_512};
use vstd::prelude::*;

verus! {

/// Size of a SHA3-512 digest in bytes.
pub const DIGEST_SIZE: usize = 64;

/// The SHA3-512 digest of `data`, as computed by the `sha3` crate. Nothing is
/// assumed of it beyond being a function of `data`.
pub uninterp spec fn sha3_512_digest(data: Seq<u8>) -> Seq<u8>;

/// Hashes `data` with `sha3::Sha3_512::digest`.
///
/// Trusted, not proved: the 64 bytes returned are `sha3_512_digest(data)`,
/// that is, the digest depends on the bytes of `data` and on nothing else.
#[verifier::external_body]
pub(crate) fn sha3_512(data: &[u8]) -> (digest: [u8; DIGEST_SIZE])
    ensures
        digest@ == sha3_512_digest(data@),
{
    let mut digest = [0u8; DIGEST_SIZE];
    digest.copy_from_slice(&Sha3_512::digest(data));
    digest
}

} // verus!
