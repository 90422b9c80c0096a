//! Constant-time comparison and selection, through `subtle`.

use vstd::prelude::*;
use subtle::{ConditionallySelectable, ConstantTimeEq};
use crate::scalar::is_scalar;
use crate::group::ristretto_valid;

verus! {

/// Calls `subtle::ConstantTimeEq::ct_eq` on two 32-byte strings. Claims:
/// `true` exactly when they are equal.
#[verifier::external_body]
pub(crate) fn ct_eq32(a: &[u8; 32], b: &[u8; 32]) -> (r: bool)
    ensures
        r == (a@ == b@),
{
    bool::from(a.as_slice().ct_eq(b.as_slice()))
}

/// Calls `Scalar::conditional_select` with the choice `bit`. Claims, for
/// canonical scalars and a bit of 0 or 1: `b` when the bit is 1, else `a`.
#[verifier::external_body]
pub(crate) fn ct_select_scalar(a: &[u8; 32], b: &[u8; 32], bit: u8) -> (r: [u8; 32])
    requires
        is_scalar(*a),
        is_scalar(*b),
        bit <= 1,
    ensures
        r == (if bit == 1 { *b } else { *a }),
{
    let x = curve25519_dalek::Scalar::from_bytes_mod_order(*a);
    let y = curve25519_dalek::Scalar::from_bytes_mod_order(*b);
    curve25519_dalek::Scalar::conditional_select(&x, &y, subtle::Choice::from(bit)).to_bytes()
}

/// Calls `RistrettoPoint::conditional_select` with the choice `bit`.
/// Claims, for valid encodings and a bit of 0 or 1: `b` when the bit is 1,
/// else `a` (a valid encoding is canonical, so it compresses back to
/// itself).
#[verifier::external_body]
pub(crate) fn ct_select_point(a: &[u8; 32], b: &[u8; 32], bit: u8) -> (r: [u8; 32])
    requires
        ristretto_valid(a@),
        ristretto_valid(b@),
        bit <= 1,
    ensures
        r == (if bit == 1 { *b } else { *a }),
{
    let x = curve25519_dalek::ristretto::CompressedRistretto(*a).decompress().unwrap();
    let y = curve25519_dalek::ristretto::CompressedRistretto(*b).decompress().unwrap();
    curve25519_dalek::RistrettoPoint::conditional_select(&x, &y, subtle::Choice::from(bit)).compress().to_bytes()
}

} // verus!
