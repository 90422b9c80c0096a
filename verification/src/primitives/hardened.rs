//! Scalar multiplications with a random additive mask on the scalar, so
//! that the secret scalar is never the one that is multiplied.

use vstd::prelude::*;
use crate::scalar::{enc, is_scalar, sc, group_order};
use crate::group::{ristretto_valid, spec_point_mul, spec_point_add, spec_point_sub, spec_dlog, encodes};
use vstd::arithmetic::div_mod::{lemma_mul_mod_noop_left, lemma_sub_mod_noop, lemma_add_mod_noop};

verus! {

broadcast use crate::scalar::lemma_enc;

/// `s·P` computed as `(s + m)·P − m·P` for a fresh random mask `m`;
/// `None` when `P` does not decode.
pub fn blinded_scalar_mul(s: &[u8; 32], p: &[u8; 32]) -> (r: Option<[u8; 32]>)
    requires
        is_scalar(*s),
    ensures
        r.is_some() == ristretto_valid(p@),
        r.is_some() ==> ristretto_valid(r.unwrap()@),
        r.is_some() ==> exists|m: [u8; 32]| is_scalar(m) && r.unwrap()@ == spec_point_sub(
            spec_point_mul(enc((sc(*s) + sc(m)) as int), p@), #[trigger] spec_point_mul(m@, p@)),
        r.is_some() ==> encodes(r.unwrap()@, (sc(*s) * spec_dlog(p@)) % (group_order() as int)),
{
    if !crate::group::point_is_valid(p) {
        return None;
    }
    let m = crate::group::random_scalar();
    let sm = crate::group::scalar_add(*s, m);
    let plus = crate::group::point_mul(sm, *p);
    let minus = crate::group::point_mul(m, *p);
    proof {
        let l = group_order() as int;
        let d = spec_dlog(p@);
        lemma_mul_mod_noop_left((sc(*s) + sc(m)) as int, d, l);
        lemma_sub_mod_noop((sc(*s) + sc(m)) * d, sc(m) * d, l);
        assert((sc(*s) + sc(m)) * d - sc(m) * d == sc(*s) * d) by (nonlinear_arith);
    }
    Some(crate::group::point_sub(plus, minus))
}

/// `a·P + b·Q` computed as `(a + m)·P + b·Q − m·P` for a fresh random
/// mask `m`; `None` when `P` or `Q` does not decode.
pub fn blinded_vartime_double_scalar_mul(a: &[u8; 32], p: &[u8; 32], b: &[u8; 32], q: &[u8; 32]) -> (r: Option<[u8; 32]>)
    requires
        is_scalar(*a),
        is_scalar(*b),
    ensures
        r.is_some() == (ristretto_valid(p@) && ristretto_valid(q@)),
        r.is_some() ==> ristretto_valid(r.unwrap()@),
        r.is_some() ==> exists|m: [u8; 32]| is_scalar(m) && r.unwrap()@ == spec_point_sub(
            spec_point_add(spec_point_mul(enc((sc(*a) + sc(m)) as int), p@), spec_point_mul(b@, q@)),
            #[trigger] spec_point_mul(m@, p@)),
        r.is_some() ==> encodes(r.unwrap()@, (sc(*a) * spec_dlog(p@) + sc(*b) * spec_dlog(q@)) % (group_order() as int)),
{
    if !crate::group::point_is_valid(p) || !crate::group::point_is_valid(q) {
        return None;
    }
    let m = crate::group::random_scalar();
    let am = crate::group::scalar_add(*a, m);
    let plus = crate::group::point_mul(am, *p);
    let rhs = crate::group::point_mul(*b, *q);
    let minus = crate::group::point_mul(m, *p);
    proof {
        let l = group_order() as int;
        let dp = spec_dlog(p@);
        let dq = spec_dlog(q@);
        let x = (sc(*a) + sc(m)) * dp;
        let y = sc(*b) * dq;
        lemma_mul_mod_noop_left((sc(*a) + sc(m)) as int, dp, l);
        lemma_add_mod_noop(x, y, l);
        lemma_sub_mod_noop(x + y, sc(m) * dp, l);
        assert(x + y - sc(m) * dp == sc(*a) * dp + sc(*b) * dq) by (nonlinear_arith)
            requires x == (sc(*a) + sc(m)) * dp, y == sc(*b) * dq;
    }
    Some(crate::group::point_sub(crate::group::point_add(plus, rhs), minus))
}

/// `s + 0`: the same scalar, recomputed.
pub fn randomize_scalar_representation(s: &[u8; 32]) -> (r: [u8; 32])
    requires
        is_scalar(*s),
    ensures
        r == *s,
{
    let z = crate::group::scalar_zero();
    let r = crate::group::scalar_add(*s, z);
    proof {
        crate::scalar::lemma_scalar_is_enc(*s);
        assert(r@ =~= s@);
        assert(r =~= *s) by {
            assert forall|i: int| 0 <= i < 32 implies r[i] == s[i] by {
                assert(r@[i] == s@[i]);
            }
        }
    }
    r
}

/// A random scalar, with a base-point multiplication done alongside so
/// that its timing matches key generation.
pub fn random_scalar_ct() -> (k: [u8; 32])
    ensures
        is_scalar(k),
{
    let k = crate::group::random_scalar();
    let _dummy = crate::group::basepoint_mul(k);
    k
}

} // verus!
