//! SHA-256 of byte strings.

use vstd::prelude::*;
use sha2::Digest;
use crate::number::{hex_bytes, hex_bytes_text};

verus! {

/// The SHA-256 digest of `data`.
pub uninterp spec fn sha256_of(data: Seq<u8>) -> Seq<u8>;

/// Hashes with `sha2::Sha256`: a fresh state, one `update`, `finalize`. The
/// contract claims that the digest is determined by the bytes hashed.
#[verifier::external_body]
pub(crate) fn sha256(data: &[u8]) -> (r: [u8; 32])
    ensures
        r@ == sha256_of(data@),
{
    let mut hasher = sha2::Sha256::new();
    hasher.update(data);
    hasher.finalize().into()
}

/// The digest as lower-case hexadecimal.
pub fn sha256_text(data: &[u8]) -> (r: String)
    ensures
        r@ == hex_bytes(sha256_of(data@)),
{
    let d = sha256(data);
    hex_bytes_text(d.as_slice())
}

} // verus!
