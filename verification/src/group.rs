//! The prime-order group ristretto255 and its scalar field, as used by
//! every signature and commitment of the protocol.
//!
//! Scalars are held as their canonical 32-byte little-endian encodings
//! and group elements as their canonical 32-byte Ristretto encodings; the
//! arithmetic is done by `curve25519-dalek`.

use vstd::prelude::*;
use vstd::string::*;
use crate::bytes::le_nat;
use crate::scalar::{enc, group_order, is_scalar, sc};

verus! {

broadcast use crate::scalar::lemma_enc;

/// Whether a 32-byte string is the Ristretto encoding of a group element.
pub uninterp spec fn ristretto_valid(b: Seq<u8>) -> bool;

/// The discrete logarithm, to the base point `B`, of the element that a
/// valid encoding denotes. ristretto255 is cyclic of prime order ℓ and
/// generated by `B`, so each element is `d·B` for exactly one `d` in
/// `[0, ℓ)`. Nothing computes it: the contracts of the group operations
/// below say what each one does to it.
pub uninterp spec fn spec_dlog(p: Seq<u8>) -> int;

/// The canonical encoding of the element `d·B`.
pub uninterp spec fn spec_point_enc(d: int) -> Seq<u8>;

/// `p` is the canonical encoding of `d·B`, for `d` in `[0, ℓ)`.
pub open spec fn encodes(p: Seq<u8>, d: int) -> bool {
    &&& 0 <= d < group_order()
    &&& p == spec_point_enc(d)
    &&& spec_dlog(p) == d
}

/// The encoding of `k·B`, where `B` is the Ristretto basepoint.
pub uninterp spec fn spec_basepoint_mul(k: Seq<u8>) -> Seq<u8>;

/// The encoding of `k·P`.
pub uninterp spec fn spec_point_mul(k: Seq<u8>, p: Seq<u8>) -> Seq<u8>;

/// The inverse modulo ℓ of a nonzero scalar.
pub uninterp spec fn spec_scalar_invert(a: Seq<u8>) -> Seq<u8>;

/// The encoding of `P + Q`.
pub uninterp spec fn spec_point_add(p: Seq<u8>, q: Seq<u8>) -> Seq<u8>;

/// The encoding of `P - Q`.
pub uninterp spec fn spec_point_sub(p: Seq<u8>, q: Seq<u8>) -> Seq<u8>;

/// The encoding of the group element that the Elligator-based map sends
/// 64 uniform bytes to.
pub uninterp spec fn spec_point_from_uniform(b: Seq<u8>) -> Seq<u8>;

/// `Σ_{i < n} kᵢ·dlog(Pᵢ)`: the discrete log of `Σ kᵢ·Pᵢ`, before reduction.
pub open spec fn msm_dlog(ks: Seq<[u8; 32]>, ps: Seq<Seq<u8>>, n: int) -> int
    decreases n,
{
    if n <= 0 { 0 } else { msm_dlog(ks, ps, n - 1) + sc(ks[n - 1]) * spec_dlog(ps[n - 1]) }
}

/// The encoding of `Σ kᵢ·Pᵢ`.
pub open spec fn spec_multiscalar_mul(ks: Seq<[u8; 32]>, ps: Seq<Seq<u8>>) -> Seq<u8> {
    spec_point_enc(msm_dlog(ks, ps, ks.len() as int) % (group_order() as int))
}

/// Calls `Scalar::from_canonical_bytes`. Claims: `Some` exactly when the
/// bytes encode an integer below ℓ, and then the same bytes.
#[verifier::external_body]
pub(crate) fn scalar_from_canonical(b: [u8; 32]) -> (r: Option<[u8; 32]>)
    ensures
        r.is_some() <==> is_scalar(b),
        r.is_some() ==> r.unwrap() == b,
{
    let s: Option<curve25519_dalek::Scalar> = curve25519_dalek::Scalar::from_canonical_bytes(b).into();
    s.map(|s| s.to_bytes())
}

/// Calls `Scalar::from_bytes_mod_order`. Claims: the result is the
/// canonical encoding of the 256-bit little-endian input reduced mod ℓ.
#[verifier::external_body]
pub(crate) fn scalar_reduce(b: [u8; 32]) -> (r: [u8; 32])
    ensures
        r@ == enc(le_nat(b@) as int),
{
    curve25519_dalek::Scalar::from_bytes_mod_order(b).to_bytes()
}

/// Calls `Scalar::from_bytes_mod_order_wide`. Claims: the result is the
/// canonical encoding of the 512-bit little-endian input reduced mod ℓ.
#[verifier::external_body]
pub(crate) fn scalar_reduce_wide(b: &[u8; 64]) -> (r: [u8; 32])
    ensures
        r@ == enc(le_nat(b@) as int),
{
    curve25519_dalek::Scalar::from_bytes_mod_order_wide(b).to_bytes()
}

/// Calls `Scalar::from(u64)`. Claims: the result encodes `v`.
#[verifier::external_body]
pub fn scalar_from_u64(v: u64) -> (r: [u8; 32])
    ensures
        r@ == enc(v as int),
{
    curve25519_dalek::Scalar::from(v).to_bytes()
}

/// Calls `Scalar + Scalar`. Claims: addition modulo ℓ.
#[verifier::external_body]
pub(crate) fn scalar_add(a: [u8; 32], b: [u8; 32]) -> (r: [u8; 32])
    requires
        is_scalar(a),
        is_scalar(b),
    ensures
        r@ == enc(sc(a) + sc(b) as int),
{
    (curve25519_dalek::Scalar::from_bytes_mod_order(a) + curve25519_dalek::Scalar::from_bytes_mod_order(b)).to_bytes()
}

/// Calls `Scalar - Scalar`. Claims: subtraction modulo ℓ.
#[verifier::external_body]
pub(crate) fn scalar_sub(a: [u8; 32], b: [u8; 32]) -> (r: [u8; 32])
    requires
        is_scalar(a),
        is_scalar(b),
    ensures
        r@ == enc(sc(a) - sc(b)),
{
    (curve25519_dalek::Scalar::from_bytes_mod_order(a) - curve25519_dalek::Scalar::from_bytes_mod_order(b)).to_bytes()
}

/// Calls `Scalar * Scalar`. Claims: multiplication modulo ℓ.
#[verifier::external_body]
pub(crate) fn scalar_mul(a: [u8; 32], b: [u8; 32]) -> (r: [u8; 32])
    requires
        is_scalar(a),
        is_scalar(b),
    ensures
        r@ == enc((sc(a) * sc(b)) as int),
{
    (curve25519_dalek::Scalar::from_bytes_mod_order(a) * curve25519_dalek::Scalar::from_bytes_mod_order(b)).to_bytes()
}

/// Calls `-Scalar`. Claims: negation modulo ℓ.
#[verifier::external_body]
pub(crate) fn scalar_neg(a: [u8; 32]) -> (r: [u8; 32])
    requires
        is_scalar(a),
    ensures
        r@ == enc(0 - sc(a)),
{
    (-curve25519_dalek::Scalar::from_bytes_mod_order(a)).to_bytes()
}

/// Calls `Scalar::invert`. Claims, for a nonzero scalar: the result is
/// a function of the input, a canonical scalar, and its multiplicative
/// inverse modulo ℓ.
#[verifier::external_body]
pub(crate) fn scalar_invert(a: [u8; 32]) -> (r: [u8; 32])
    requires
        is_scalar(a),
        sc(a) != 0,
    ensures
        r@ == spec_scalar_invert(a@),
        is_scalar(r),
        (sc(a) * sc(r)) % group_order() == 1,
{
    curve25519_dalek::Scalar::from_bytes_mod_order(a).invert().to_bytes()
}

/// Calls `RistrettoPoint::default` (the identity) and compresses it.
/// Claims: the encoding is valid and is the all-zero string.
#[verifier::external_body]
pub(crate) fn identity_point() -> (r: [u8; 32])
    ensures
        ristretto_valid(r@),
        r@ == Seq::new(32, |i: int| 0u8),
        r@ == spec_point_enc(0),
        encodes(r@, 0),
{
    curve25519_dalek::RistrettoPoint::default().compress().to_bytes()
}

/// Calls `CompressedRistretto::decompress`. Claims: `true` exactly when
/// the bytes encode a group element.
#[verifier::external_body]
pub(crate) fn point_is_valid(b: &[u8; 32]) -> (r: bool)
    ensures
        r == ristretto_valid(b@),
        r ==> encodes(b@, spec_dlog(b@)),
{
    curve25519_dalek::ristretto::CompressedRistretto(*b).decompress().is_some()
}

/// Calls `RistrettoPoint::mul_base` and compresses the result. Claims:
/// the result is the named product, and it is a valid encoding.
#[verifier::external_body]
pub(crate) fn basepoint_mul(k: [u8; 32]) -> (r: [u8; 32])
    requires
        is_scalar(k),
    ensures
        r@ == spec_basepoint_mul(k@),
        ristretto_valid(r@),
        encodes(r@, sc(k) as int),
{
    curve25519_dalek::RistrettoPoint::mul_base(&curve25519_dalek::Scalar::from_bytes_mod_order(k)).compress().to_bytes()
}

/// Calls `Scalar * RistrettoPoint` and compresses the result. Claims: the
/// result is the named product, and it is a valid encoding.
#[verifier::external_body]
pub(crate) fn point_mul(k: [u8; 32], p: [u8; 32]) -> (r: [u8; 32])
    requires
        is_scalar(k),
        ristretto_valid(p@),
    ensures
        r@ == spec_point_mul(k@, p@),
        ristretto_valid(r@),
        encodes(r@, (sc(k) * spec_dlog(p@)) % (group_order() as int)),
{
    let point = curve25519_dalek::ristretto::CompressedRistretto(p).decompress().unwrap();
    (curve25519_dalek::Scalar::from_bytes_mod_order(k) * point).compress().to_bytes()
}

/// Calls `RistrettoPoint + RistrettoPoint` and compresses the result.
/// Claims: the result is the named sum, and it is a valid encoding.
#[verifier::external_body]
pub(crate) fn point_add(p: [u8; 32], q: [u8; 32]) -> (r: [u8; 32])
    requires
        ristretto_valid(p@),
        ristretto_valid(q@),
    ensures
        r@ == spec_point_add(p@, q@),
        ristretto_valid(r@),
        encodes(r@, (spec_dlog(p@) + spec_dlog(q@)) % (group_order() as int)),
{
    let a = curve25519_dalek::ristretto::CompressedRistretto(p).decompress().unwrap();
    let b = curve25519_dalek::ristretto::CompressedRistretto(q).decompress().unwrap();
    (a + b).compress().to_bytes()
}

/// Calls `RistrettoPoint - RistrettoPoint` and compresses the result.
/// Claims: the result is the named difference, and it is a valid encoding.
#[verifier::external_body]
pub(crate) fn point_sub(p: [u8; 32], q: [u8; 32]) -> (r: [u8; 32])
    requires
        ristretto_valid(p@),
        ristretto_valid(q@),
    ensures
        r@ == spec_point_sub(p@, q@),
        ristretto_valid(r@),
        encodes(r@, (spec_dlog(p@) - spec_dlog(q@)) % (group_order() as int)),
{
    let a = curve25519_dalek::ristretto::CompressedRistretto(p).decompress().unwrap();
    let b = curve25519_dalek::ristretto::CompressedRistretto(q).decompress().unwrap();
    (a - b).compress().to_bytes()
}

/// Calls `RistrettoPoint::from_uniform_bytes` and compresses the result.
/// Claims: the result is the named image, and it is a valid encoding.
#[verifier::external_body]
pub(crate) fn point_from_uniform(b: &[u8; 64]) -> (r: [u8; 32])
    ensures
        r@ == spec_point_from_uniform(b@),
        ristretto_valid(r@),
        encodes(r@, spec_dlog(r@)),
{
    curve25519_dalek::RistrettoPoint::from_uniform_bytes(b).compress().to_bytes()
}

/// Calls `RistrettoPoint::multiscalar_mul` and compresses the result.
/// Claims: the result is the valid encoding of `Σ kᵢ·Pᵢ`, whose discrete
/// log is `Σ kᵢ·dlog(Pᵢ)` modulo ℓ.
#[verifier::external_body]
pub(crate) fn multiscalar_mul(ks: &[[u8; 32]], ps: &[[u8; 32]]) -> (r: [u8; 32])
    requires
        ks@.len() == ps@.len(),
        forall|i: int| 0 <= i < ks@.len() ==> is_scalar(#[trigger] ks@[i]),
        forall|i: int| 0 <= i < ps@.len() ==> ristretto_valid((#[trigger] ps@[i])@),
    ensures
        r@ == spec_multiscalar_mul(ks@, ps@.map_values(|p: [u8; 32]| p@)),
        ristretto_valid(r@),
        encodes(r@, msm_dlog(ks@, ps@.map_values(|p: [u8; 32]| p@), ks@.len() as int) % (group_order() as int)),
{
    let scalars: Vec<curve25519_dalek::Scalar> = ks.iter().map(|k| curve25519_dalek::Scalar::from_bytes_mod_order(*k)).collect();
    let points: Vec<curve25519_dalek::RistrettoPoint> = ps.iter().map(|p| curve25519_dalek::ristretto::CompressedRistretto(*p).decompress().unwrap()).collect();
    <curve25519_dalek::RistrettoPoint as curve25519_dalek::traits::MultiscalarMul>::multiscalar_mul(&scalars, &points).compress().to_bytes()
}

/// The Schnorr verification equation `s·B == R + e·PK`, as encodings.
pub open spec fn schnorr_holds(r: Seq<u8>, s: Seq<u8>, e: Seq<u8>, pk: Seq<u8>) -> bool {
    spec_point_enc((le_nat(s) as int) % (group_order() as int)) == spec_point_enc((spec_dlog(r) + le_nat(e) * spec_dlog(pk)) % (group_order() as int))
}

/// Checks the Schnorr verification equation `s·B == R + e·PK`.
pub fn schnorr_check(r: [u8; 32], s: [u8; 32], e: [u8; 32], pk: [u8; 32]) -> (ok: bool)
    requires
        ristretto_valid(r@),
        ristretto_valid(pk@),
        is_scalar(s),
        is_scalar(e),
    ensures
        ok == schnorr_holds(r@, s@, e@, pk@),
{
    let lhs = basepoint_mul(s);
    let epk = point_mul(e, pk);
    let rhs = point_add(r, epk);
    proof {
        vstd::arithmetic::div_mod::lemma_small_mod(sc(s), group_order());
        vstd::arithmetic::div_mod::lemma_add_mod_noop(spec_dlog(r@), sc(e) * spec_dlog(pk@), group_order() as int);
        vstd::arithmetic::div_mod::lemma_mod_twice(spec_dlog(r@), group_order() as int);
        lemma_mod_sum_right(spec_dlog(r@), sc(e) * spec_dlog(pk@), group_order() as int);
    }
    crate::bytes::bytes32_eq(&lhs, &rhs)
}

/// Reducing the second summand first does not change a sum modulo `m`.
pub proof fn lemma_mod_sum_right(a: int, b: int, m: int)
    requires
        m > 0,
    ensures
        (a + b % m) % m == (a + b) % m,
{
    vstd::arithmetic::div_mod::lemma_add_mod_noop(a, b, m);
    vstd::arithmetic::div_mod::lemma_add_mod_noop(a, b % m, m);
    vstd::arithmetic::div_mod::lemma_mod_twice(b, m);
}

/// An honest Schnorr response passes verification: `s = k + e·x` against
/// `R = k·B` and `PK = x·B` satisfies `s·B == R + e·PK`.
pub proof fn lemma_schnorr_response_holds(r: Seq<u8>, s: Seq<u8>, e: Seq<u8>, pk: Seq<u8>, k: int, x: int)
    requires
        encodes(r, k),
        encodes(pk, x),
        s == enc(k + ((le_nat(e) * x) % (group_order() as int))),
    ensures
        schnorr_holds(r, s, e, pk),
{
    let l = group_order() as int;
    crate::scalar::lemma_enc(k + ((le_nat(e) * x) % l));
    vstd::arithmetic::div_mod::lemma_mod_twice(k + ((le_nat(e) * x) % l), l);
    lemma_mod_sum_right(k, le_nat(e) * x, l);
}

/// The Schnorr response `k + e·x` for nonce `k`, challenge `e` and secret `x`.
pub fn schnorr_response(k: [u8; 32], e: [u8; 32], x: [u8; 32]) -> (s: [u8; 32])
    requires
        is_scalar(k),
        is_scalar(e),
        is_scalar(x),
    ensures
        is_scalar(s),
        s@ == enc(sc(k) + ((sc(e) * sc(x)) % group_order()) as int),
{
    let ex = scalar_mul(e, x);
    scalar_add(k, ex)
}

/// A 64-byte digest reduced to a scalar.
pub fn scalar_from_digest(d: &[u8; 64]) -> (s: [u8; 32])
    ensures
        is_scalar(s),
        s@ == enc(le_nat(d@) as int),
{
    scalar_reduce_wide(d)
}

/// Proof that a string of zero bytes denotes zero.
pub proof fn lemma_le_nat_zeros(s: Seq<u8>)
    requires
        forall|i: int| 0 <= i < s.len() ==> s[i] == 0u8,
    ensures
        le_nat(s) == 0,
    decreases s.len(),
{
    if s.len() > 0 {
        lemma_le_nat_zeros(s.drop_first());
    }
}

/// The scalar zero.
pub fn scalar_zero() -> (r: [u8; 32])
    ensures
        sc(r) == 0,
        is_scalar(r),
{
    let r = [0u8; 32];
    proof {
        lemma_le_nat_zeros(r@);
    }
    r
}

/// The scalar one.
pub fn scalar_one() -> (r: [u8; 32])
    ensures
        sc(r) == 1,
        is_scalar(r),
{
    let mut r = [0u8; 32];
    r[0] = 1;
    proof {
        lemma_le_nat_zeros(r@.drop_first());
    }
    r
}

/// A uniformly random scalar: 64 bytes from the operating system reduced
/// modulo ℓ, with the raw bytes wiped afterwards.
pub fn random_scalar() -> (r: [u8; 32])
    ensures
        is_scalar(r),
{
    let mut wide_vec = crate::rng::random_bytes(64);
    let wide = crate::bytes::to_array64(wide_vec.as_slice());
    let r = scalar_reduce_wide(&wide);
    crate::rng::wipe(wide_vec.as_mut_slice());
    r
}

/// Hashes arbitrary data to a scalar: the 64-byte SHAKE-256 output of
/// `"specter-hash-to-scalar:" ‖ len(data) as u64 LE ‖ data`, reduced mod ℓ.
pub fn hash_to_scalar(data: &[u8]) -> (r: [u8; 32])
    ensures
        is_scalar(r),
        sc(r) == le_nat(crate::hashing::spec_shake256(hash_to_scalar_input(data@), 64)) % group_order(),
{
    let mut buf: Vec<u8> = Vec::new();
    crate::bytes::append_bytes(&mut buf, "specter-hash-to-scalar:".as_bytes());
    let len_bytes = vstd::bytes::u64_to_le_bytes(data.len() as u64);
    crate::bytes::append_bytes(&mut buf, len_bytes.as_slice());
    crate::bytes::append_bytes(&mut buf, data);
    let out = crate::hashing::shake256(buf.as_slice(), 64);
    let wide = crate::bytes::to_array64(out.as_slice());
    scalar_reduce_wide(&wide)
}

/// The bytes that `hash_to_scalar` absorbs for `data`.
pub open spec fn hash_to_scalar_input(data: Seq<u8>) -> Seq<u8> {
    "specter-hash-to-scalar:".spec_bytes() + vstd::bytes::spec_u64_to_le_bytes(data.len() as u64) + data
}

} // verus!
