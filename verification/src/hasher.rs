//! Integrity digest of a chunk's stored bytes: SHA-256, written as
//! lower-case hexadecimal text in the manifest.

use vstd::prelude::*;
use sha2::{Digest, Sha256};
use crate::hex::{hex_lower, spec_hex_lower};

verus! {

/// The SHA-256 digest of a byte string.
pub uninterp spec fn sha256_digest(data: Seq<u8>) -> Seq<u8>;

/// Length of a digest in bytes.
pub const DIGEST_LEN: usize = 32;

/// Calls `sha2::Sha256::digest`. Trusted: the result is the SHA-256 digest of
/// `data`, a function of `data` alone, and it is 32 bytes long.
#[verifier::external_body]
fn sha256(data: &[u8]) -> (out: Vec<u8>)
    ensures
        out@ == sha256_digest(data@),
        out@.len() == 32,
{
    Sha256::digest(data).to_vec()
}

/// The digest as it is recorded in a manifest.
pub open spec fn spec_digest_text(data: Seq<u8>) -> Seq<char> {
    spec_hex_lower(sha256_digest(data))
}

/// The 32-byte digest of `data`.
pub fn digest(data: &[u8]) -> (out: Vec<u8>)
    ensures
        out@ == sha256_digest(data@),
        out@.len() == DIGEST_LEN,
{
    sha256(data)
}

/// The digest of `data` as 64 hexadecimal digits.
pub fn digest_text(data: &[u8]) -> (text: String)
    ensures
        text@ == spec_digest_text(data@),
        text@.len() == 2 * DIGEST_LEN,
{
    let raw = sha256(data);
    proof {
        crate::hex::lemma_hex_len(raw@);
    }
    hex_lower(raw.as_slice())
}

} // verus!
