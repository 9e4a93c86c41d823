//! Request fingerprinting.
//!
//! Cache identity is content-and-path based: the fingerprint covers the
//! path with its query string and the request body, and nothing else, so
//! requests differing only in headers or method collide by design.

use vstd::prelude::*;

verus! {

/// The fingerprint of a request: a collision-resistant digest of the
/// path-with-query and the body, a function of those two inputs alone.
pub uninterp spec fn fingerprint_of(path_and_query: Seq<char>, body: Seq<u8>) -> Seq<char>;

/// Relies on blake3::Hasher (new, update, finalize) and
/// blake3::Hash::to_hex: a 256-bit digest of the path bytes followed by
/// the body bytes, rendered as 64 lowercase hexadecimal characters; a
/// pure function of the two inputs, the same on every machine.
#[verifier::external_body]
pub fn rq_hash_string(uri: &str, body: &Vec<u8>) -> (r: String)
    ensures
        r@ == fingerprint_of(uri@, body@),
        r@.len() == 64,
{
    let mut hasher = blake3::Hasher::new();
    hasher.update(uri.as_bytes());
    hasher.update(body);
    let hex = hasher.finalize().to_hex();
    hex.as_str().to_string()
}

/// Fingerprinting is deterministic: equal path and body give an equal
/// key. (That distinct inputs give distinct keys holds only with
/// overwhelming probability and is not stated.)
pub proof fn lemma_fingerprint_deterministic(
    p1: Seq<char>,
    b1: Seq<u8>,
    p2: Seq<char>,
    b2: Seq<u8>,
)
    requires
        p1 == p2,
        b1 == b2,
    ensures
        fingerprint_of(p1, b1) == fingerprint_of(p2, b2),
{
}

} // verus!
