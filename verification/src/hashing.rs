//! The content-digest primitive: an opaque function from a file's bytes to
//! a fixed-format hex digest string, provided by the `sha256` crate.

use vstd::prelude::*;

verus! {

/// The hex-encoded SHA-256 digest of a byte sequence. Left uninterpreted:
/// two byte sequences are known to share a digest only when they are equal.
pub uninterp spec fn digest_of(bytes: Seq<u8>) -> Seq<char>;

/// Relies on sha256::digest (via its impl for `&Vec<u8>`): the hex-encoded
/// SHA-256 digest of the input bytes, a function of the bytes alone.
#[verifier::external_body]
pub(crate) fn sha256_hex(bytes: &Vec<u8>) -> (r: String)
    ensures
        r@ == digest_of(bytes@),
{
    sha256::digest(bytes)
}

} // verus!
