//! The SHA-256 digest of a package file, as stored in the `desc` index.

use vstd::prelude::*;

verus! {

/// The lower-case hex SHA-256 digest of a byte string; the outcome
/// depends on the bytes alone.
pub uninterp spec fn sha256_hex(data: Seq<u8>) -> Seq<char>;

/// Relies on crypto::sha2::Sha256 through crypto::digest::Digest:
/// `input` then `result_str` yields the hex digest of the input bytes,
/// a function of the bytes alone.
#[verifier::external_body]
pub(crate) fn sha256_hex_of(data: &Vec<u8>) -> (r: String)
    ensures
        r@ == sha256_hex(data@),
{
    let mut h = crypto::sha2::Sha256::new();
    crypto::digest::Digest::input(&mut h, data.as_slice());
    crypto::digest::Digest::result_str(&mut h)
}

} // verus!
