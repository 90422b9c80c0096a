//! Hash functions used for domain-separated digests and Fiat-Shamir
//! challenges. The digests themselves are computed by the `sha2` and
//! `sha3` crates; this module names their results.

use vstd::prelude::*;
use sha3::digest::{ExtendableOutput, Update, XofReader};

verus! {

/// The SHA-256 digest of a byte string.
pub uninterp spec fn spec_sha256(data: Seq<u8>) -> Seq<u8>;

/// The SHA-512 digest of a byte string.
pub uninterp spec fn spec_sha512(data: Seq<u8>) -> Seq<u8>;

/// The first `len` output bytes of SHAKE-256 absorbing a byte string.
pub uninterp spec fn spec_shake256(data: Seq<u8>, len: nat) -> Seq<u8>;

/// Calls `sha2::Sha256::digest`. Claims: the 32 output bytes are the
/// SHA-256 digest of `data`, a function of `data` alone.
#[verifier::external_body]
pub(crate) fn sha256(data: &[u8]) -> (r: [u8; 32])
    ensures
        r@ == spec_sha256(data@),
{
    let d = <sha2::Sha256 as sha2::Digest>::digest(data);
    let mut r = [0u8; 32];
    r.copy_from_slice(&d);
    r
}

/// Calls `sha2::Sha512::digest`. Claims: the 64 output bytes are the
/// SHA-512 digest of `data`, a function of `data` alone.
#[verifier::external_body]
pub(crate) fn sha512(data: &[u8]) -> (r: [u8; 64])
    ensures
        r@ == spec_sha512(data@),
{
    let d = <sha2::Sha512 as sha2::Digest>::digest(data);
    let mut r = [0u8; 64];
    r.copy_from_slice(&d);
    r
}

/// Calls `sha3::Shake256` (absorb `data`, then read `len` bytes of the
/// extendable output). Claims: the output has `len` bytes and is a
/// function of `data` and `len` alone.
#[verifier::external_body]
pub(crate) fn shake256(data: &[u8], len: usize) -> (r: Vec<u8>)
    ensures
        r@.len() == len,
        r@ == spec_shake256(data@, len as nat),
{
    let mut hasher = sha3::Shake256::default();
    hasher.update(data);
    let mut reader = hasher.finalize_xof();
    let mut out = vec![0u8; len];
    reader.read(&mut out);
    out
}

} // verus!
