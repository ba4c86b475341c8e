//! Fingerprints of request bodies.

use vstd::prelude::*;
use vstd::string::StringSliceAdditionalSpecFns;
use sha2::{Digest, Sha256};
use crate::text::{hex_encode, is_lower_hex_char, law_lower_hex_injective, lemma_lower_hex_shape, lower_hex};

verus! {

/// The SHA-256 digest of `data`.
pub uninterp spec fn sha256(data: Seq<u8>) -> Seq<u8>;

/// `Sha256::digest` (the `Digest` trait of `sha2`): the SHA-256 digest of
/// `data`, 32 bytes long. What those bytes are is not written out here; the
/// contract names them `sha256(data)`.
#[verifier::external_body]
fn sha256_digest(data: &[u8]) -> (d: Vec<u8>)
    ensures
        d@ == sha256(data@),
        d@.len() == 32,
{
    Sha256::digest(data).to_vec()
}

/// The fingerprint of a request body: the lower-case hex rendering of the
/// SHA-256 digest of its UTF-8 bytes.
pub open spec fn body_fingerprint(body: Seq<u8>) -> Seq<char> {
    lower_hex(sha256(body))
}

/// Fingerprints a request body (see `body_fingerprint`); the result is 64
/// lower-case hexadecimal digits.
pub fn hash_body(body: &str) -> (h: String)
    ensures
        h@ == body_fingerprint(body.spec_bytes()),
        h@.len() == 64,
        forall|i: int| 0 <= i < h@.len() ==> is_lower_hex_char(#[trigger] h@[i]),
{
    let digest = sha256_digest(body.as_bytes());
    let h = hex_encode(digest.as_slice());
    proof {
        lemma_lower_hex_shape(digest@);
    }
    h
}

/// Two bodies have the same fingerprint exactly when their SHA-256 digests
/// are the same: equal bodies always do, and distinct bodies do only where
/// SHA-256 collides on them.
pub proof fn law_fingerprint_matches_digest(a: Seq<u8>, b: Seq<u8>)
    ensures
        (body_fingerprint(a) == body_fingerprint(b)) <==> (sha256(a) == sha256(b)),
        a == b ==> body_fingerprint(a) == body_fingerprint(b),
{
    if body_fingerprint(a) == body_fingerprint(b) {
        law_lower_hex_injective(sha256(a), sha256(b));
    }
}

} // verus!
