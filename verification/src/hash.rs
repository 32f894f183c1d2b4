//! The content-addressing primitive: SHA-256, supplied by the `sha2` crate.

use vstd::prelude::*;

verus! {

/// The SHA-256 digest of a byte sequence.  The digest is computed by the
/// `sha2` crate; this crate names the result and relies on nothing about its
/// internal structure beyond what `sha256` states.
pub uninterp spec fn sha256_of(bytes: Seq<u8>) -> Seq<u8>;

/// Relies on `sha2::Sha256` (through the `digest` crate's `Digest::digest`):
/// the SHA-256 hash of the input, a deterministic function of the input bytes
/// alone, always exactly 32 bytes long.
#[verifier::external_body]
pub(crate) fn sha256(bytes: &Vec<u8>) -> (r: Vec<u8>)
    ensures
        r@ == sha256_of(bytes@),
        r@.len() == 32,
{
    let out = <sha2::Sha256 as sha2::Digest>::digest(bytes.as_slice());
    out.to_vec()
}

} // verus!
