//! SHA-256 digests.

use crate::text::{hex_encode, hex_text};
use sha2::{Digest, Sha256};
use vstd::prelude::*;

verus! {

/// The SHA-256 digest of some bytes.
pub uninterp spec fn sha256_of(data: Seq<u8>) -> Seq<u8>;

/// `Sha256::digest` gives the digest.
#[verifier::external_body]
pub(crate) fn sha256_bytes(data: &[u8]) -> (d: [u8; 32])
    ensures
        d@ == sha256_of(data@),
{
    Sha256::digest(data).into()
}

/// The digest of some bytes as hexadecimal text.
pub fn sha256_hex(data: &[u8]) -> (s: String)
    ensures
        s@ == hex_text(sha256_of(data@)),
        s@.len() == 64,
{
    let d = sha256_bytes(data);
    hex_encode(d.as_slice())
}

} // verus!
