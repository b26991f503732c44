//! SHA-256 digests for block hashing and message authentication support.
//!
//! The digest itself is computed by the sha2 crate; its value is only ever
//! referred to through the name `sha256_of`, so everything proved about
//! code that consumes a digest holds for whatever bytes the real function
//! returns.

use vstd::prelude::*;

verus! {

/// The SHA-256 digest of a byte sequence.  The digest is a function of the
/// input bytes alone; its 32-byte length is stated where it is computed.
pub uninterp spec fn sha256_of(data: Seq<u8>) -> Seq<u8>;

/// Relies on sha2's `Sha256::digest`: the SHA-256 digest of the input,
/// always 32 bytes, depending on the input bytes alone.
#[verifier::external_body]
fn sha256(data: &Vec<u8>) -> (r: Vec<u8>)
    ensures
        r@ == sha256_of(data@),
        r@.len() == 32,
{
    let digest = <sha2::Sha256 as sha2::Digest>::digest(data.as_slice());
    digest.to_vec()
}

/// Hash arbitrary bytes with SHA-256.
pub fn hash_message(data: &Vec<u8>) -> (r: Vec<u8>)
    ensures
        r@ == sha256_of(data@),
        r@.len() == 32,
{
    sha256(data)
}

} // verus!
