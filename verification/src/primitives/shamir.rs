//! Shamir secret sharing over the scalars mod ℓ: a secret is the constant
//! term of a random polynomial of degree `t − 1`, and the shares are its
//! values at `x = 1, …, n`. Lagrange interpolation at 0 recovers it.

use vstd::prelude::*;
use vstd::arithmetic::power::pow;
use crate::bytes::le_nat;
use crate::scalar::{enc, sc, is_scalar, group_order};
use crate::group::spec_scalar_invert;

verus! {

broadcast use crate::scalar::lemma_enc;

/// A share: the point `x` (nonzero) and the polynomial's value `y` there.
#[derive(Clone, Copy, Debug)]
pub struct Share {
    pub x: [u8; 32],
    /// Secret.
    pub y: [u8; 32],
}

/// Errors of splitting.
#[derive(Debug, PartialEq, Eq, Clone, Copy)]
pub enum ShamirError {
    ZeroThreshold,
    ThresholdExceedsTotal { threshold: usize, total: usize },
    ZeroShares,
}

/// `Σ_{k < n} cs[k]·x^k` over the integers.
pub open spec fn poly_value(cs: Seq<[u8; 32]>, x: int, n: int) -> int
    decreases n,
{
    if n <= 0 {
        0
    } else {
        poly_value(cs, x, n - 1) + sc(cs[n - 1]) * pow(x, (n - 1) as nat)
    }
}

/// The value of the polynomial with coefficients `cs` at `x`, mod ℓ.
pub open spec fn poly_at(cs: Seq<[u8; 32]>, x: int) -> Seq<u8> {
    enc(poly_value(cs, x, cs.len() as int))
}

/// Whether `shares` are the values at `1, …, n` of the polynomial `cs`.
pub open spec fn shares_of(cs: Seq<[u8; 32]>, shares: Seq<Share>) -> bool {
    forall|i: int| 0 <= i < shares.len() ==> (#[trigger] shares[i]).x@ == enc(i + 1) && shares[i].y@ == poly_at(cs, i + 1)
}

pub(crate) proof fn lemma_mod_step(a: int, c: int, p: int, m: int)
    requires
        m > 0,
    ensures
        (a % m + (c * (p % m)) % m) % m == (a + c * p) % m,
{
    vstd::arithmetic::div_mod::lemma_mul_mod_noop_right(c, p, m);
    vstd::arithmetic::div_mod::lemma_add_mod_noop(a, c * p, m);
    vstd::arithmetic::div_mod::lemma_mod_twice(a, m);
    vstd::arithmetic::div_mod::lemma_mod_twice(c * p, m);
    vstd::arithmetic::div_mod::lemma_add_mod_noop(a % m, (c * p) % m, m);
}

/// Evaluates the polynomial with coefficients `cs` (constant term first)
/// at `x`.
pub fn evaluate_polynomial(cs: &[[u8; 32]], x: &[u8; 32]) -> (r: [u8; 32])
    requires
        is_scalar(*x),
        forall|i: int| 0 <= i < cs@.len() ==> is_scalar(#[trigger] cs@[i]),
    ensures
        is_scalar(r),
        r@ == poly_at(cs@, sc(*x) as int),
{
    let ghost m = group_order() as int;
    let ghost xv = sc(*x) as int;
    let mut result = crate::group::scalar_zero();
    let mut x_power = crate::group::scalar_one();
    let mut k: usize = 0;
    proof {
        vstd::arithmetic::power::lemma_pow0(xv);
    }
    while k < cs.len()
        invariant
            m == group_order() as int,
            xv == sc(*x) as int,
            is_scalar(*x),
            forall|i: int| 0 <= i < cs@.len() ==> is_scalar(#[trigger] cs@[i]),
            0 <= k <= cs@.len(),
            is_scalar(result),
            is_scalar(x_power),
            sc(result) == poly_value(cs@, xv, k as int) % m,
            sc(x_power) == pow(xv, k as nat) % m,
        decreases cs@.len() - k,
    {
        let c = cs[k];
        let term = crate::group::scalar_mul(c, x_power);
        let next = crate::group::scalar_add(result, term);
        proof {
            lemma_mod_step(poly_value(cs@, xv, k as int), sc(c) as int, pow(xv, k as nat), m);
            vstd::arithmetic::power::lemma_pow_adds(xv, k as nat, 1);
            vstd::arithmetic::power::lemma_pow1(xv);
            vstd::arithmetic::div_mod::lemma_mul_mod_noop_left(pow(xv, k as nat), xv, m);
        }
        result = next;
        x_power = crate::group::scalar_mul(x_power, *x);
        proof {
            vstd::arithmetic::div_mod::lemma_mul_mod_noop_right(pow(xv, k as nat) % m, xv, m);
            vstd::arithmetic::div_mod::lemma_mul_mod_noop_left(pow(xv, k as nat), xv, m);
            assert(pow(xv, (k + 1) as nat) == pow(xv, k as nat) * xv);
        }
        k = k + 1;
    }
    proof {
        crate::scalar::lemma_scalar_is_enc(result);
        vstd::arithmetic::div_mod::lemma_mod_twice(poly_value(cs@, xv, cs@.len() as int), m);
    }
    result
}


/// Splits `secret` into `n` shares, any `t` of which recover it: the
/// values at `1, …, n` of a polynomial of degree `t − 1` whose constant
/// term is the secret and whose other coefficients are random.
pub fn split_secret(secret: &[u8; 32], t: usize, n: usize) -> (r: Result<Vec<Share>, ShamirError>)
    requires
        is_scalar(*secret),
    ensures
        t == 0 ==> r == Err::<Vec<Share>, ShamirError>(ShamirError::ZeroThreshold),
        t > 0 && n == 0 ==> r == Err::<Vec<Share>, ShamirError>(ShamirError::ZeroShares),
        t > 0 && n > 0 && t > n ==> r == Err::<Vec<Share>, ShamirError>(ShamirError::ThresholdExceedsTotal { threshold: t, total: n }),
        0 < t <= n ==> r is Ok && r->Ok_0@.len() == n && exists|cs: Seq<[u8; 32]>|
            cs.len() == t && cs[0] == *secret && (forall|i: int| 0 <= i < t ==> is_scalar(#[trigger] cs[i]))
            && #[trigger] shares_of(cs, r->Ok_0@),
{
    if t == 0 {
        return Err(ShamirError::ZeroThreshold);
    }
    if n == 0 {
        return Err(ShamirError::ZeroShares);
    }
    if t > n {
        return Err(ShamirError::ThresholdExceedsTotal { threshold: t, total: n });
    }
    let mut coefficients: Vec<[u8; 32]> = Vec::new();
    coefficients.push(*secret);
    let mut c: usize = 1;
    while c < t
        invariant
            1 <= c <= t,
            coefficients@.len() == c,
            coefficients@[0] == *secret,
            forall|i: int| 0 <= i < c ==> is_scalar(#[trigger] coefficients@[i]),
        decreases t - c,
    {
        coefficients.push(crate::group::random_scalar());
        c = c + 1;
    }
    let mut shares: Vec<Share> = Vec::new();
    let mut i: usize = 0;
    while i < n
        invariant
            0 <= i <= n,
            coefficients@.len() == t,
            forall|k: int| 0 <= k < t ==> is_scalar(#[trigger] coefficients@[k]),
            shares@.len() == i,
            shares_of(coefficients@, shares@),
        decreases n - i,
    {
        let x = crate::group::scalar_from_u64((i + 1) as u64);
        proof {
            crate::scalar::lemma_group_order_fits();
            assert(is_scalar(x));
        }
        let y = evaluate_polynomial(coefficients.as_slice(), &x);
        proof {
            assert(sc(x) == ((i + 1) as int) % (group_order() as int));
        }
        shares.push(Share { x, y });
        i = i + 1;
    }
    Ok(shares)
}

/// The factor `(−x_j)·(x_i − x_j)⁻¹` of a Lagrange coefficient.
pub open spec fn lagrange_factor(xi: [u8; 32], xj: [u8; 32]) -> int {
    ((0 - sc(xj)) % (group_order() as int)) * le_nat(spec_scalar_invert(enc(sc(xi) - sc(xj))))
}

/// The Lagrange coefficient at 0 of share `i`, over the first `k` shares.
pub open spec fn basis(s: Seq<Share>, i: int, k: int) -> int
    decreases k,
{
    if k <= 0 {
        1
    } else if k - 1 == i {
        basis(s, i, k - 1)
    } else {
        basis(s, i, k - 1) * lagrange_factor(s[i].x, s[k - 1].x)
    }
}

/// `Σ_{i < k} y_i · L_i(0)`.
pub open spec fn lagrange_sum(s: Seq<Share>, k: int) -> int
    decreases k,
{
    if k <= 0 {
        0
    } else {
        lagrange_sum(s, k - 1) + sc(s[k - 1].y) * basis(s, k - 1, s.len() as int)
    }
}

/// Whether two shares have the same point.
pub open spec fn has_duplicate_x(s: Seq<Share>) -> bool {
    exists|i: int, j: int| 0 <= i < j < s.len() && s[i].x == s[j].x
}

proof fn lemma_mul_mod(a: int, b: int, m: int)
    requires
        m > 0,
    ensures
        ((a % m) * (b % m)) % m == (a * b) % m,
{
    vstd::arithmetic::div_mod::lemma_mul_mod_noop_left(a, b % m, m);
    vstd::arithmetic::div_mod::lemma_mul_mod_noop_right(a, b, m);
}

/// The Lagrange coefficient at 0 of share `i`.
fn lagrange_basis(shares: &[Share], i: usize) -> (b: [u8; 32])
    requires
        i < shares@.len(),
        forall|k: int| 0 <= k < shares@.len() ==> is_scalar(#[trigger] shares@[k].x),
        !has_duplicate_x(shares@),
    ensures
        is_scalar(b),
        sc(b) == basis(shares@, i as int, shares@.len() as int) % (group_order() as int),
{
    let ghost m = group_order() as int;
    let mut b = crate::group::scalar_one();
    proof { crate::scalar::lemma_group_order_fits(); }
    let xi = shares[i].x;
    let mut j: usize = 0;
    while j < shares.len()
        invariant
            m == group_order() as int,
            m > 1,
            i < shares@.len(),
            xi == shares@[i as int].x,
            forall|k: int| 0 <= k < shares@.len() ==> is_scalar(#[trigger] shares@[k].x),
            !has_duplicate_x(shares@),
            0 <= j <= shares@.len(),
            is_scalar(b),
            sc(b) == basis(shares@, i as int, j as int) % m,
        decreases shares@.len() - j,
    {
        if i != j {
            let xj = shares[j].x;
            assert(xi != xj) by {
                if xi == xj {
                    if i < j {
                        assert(shares@[i as int].x == shares@[j as int].x);
                    } else {
                        assert(shares@[j as int].x == shares@[i as int].x);
                    }
                }
            }
            let num = crate::group::scalar_neg(xj);
            let den = crate::group::scalar_sub(xi, xj);
            proof {
                crate::scalar::lemma_scalar_is_enc(xi);
                crate::scalar::lemma_scalar_is_enc(xj);
                if sc(den) == 0 {
                    assert((sc(xi) - sc(xj)) % m == 0);
                    vstd::arithmetic::div_mod::lemma_small_mod(sc(xi), group_order());
                    assert(sc(xi) == sc(xj)) by {
                        vstd::arithmetic::div_mod::lemma_fundamental_div_mod(sc(xi) - sc(xj), m);
                    }
                    assert(xi@ == xj@);
                    assert(xi == xj) by { assert(xi@ =~= xj@); }
                }
            }
            let inv = crate::group::scalar_invert(den);
            let f = crate::group::scalar_mul(num, inv);
            let nb = crate::group::scalar_mul(b, f);
            proof {
                let prev = basis(shares@, i as int, j as int);
                let fac = lagrange_factor(xi, xj);
                assert(sc(num) == (0 - sc(xj)) % m);
                assert(sc(inv) == le_nat(spec_scalar_invert(enc(sc(xi) - sc(xj)))));
                assert(sc(f) == fac % m);
                lemma_mul_mod(prev, fac, m);
                assert(basis(shares@, i as int, j + 1) == prev * fac);
            }
            b = nb;
        }
        j = j + 1;
    }
    b
}

/// Recovers the secret from shares by Lagrange interpolation at 0:
/// `Σ y_i · Π_{j≠i} (−x_j)/(x_i − x_j)`. `None` for no shares or for two
/// shares with the same point.
pub fn reconstruct_secret(shares: &[Share]) -> (r: Option<[u8; 32]>)
    requires
        forall|k: int| 0 <= k < shares@.len() ==> is_scalar(#[trigger] shares@[k].x) && is_scalar(shares@[k].y),
    ensures
        r.is_none() <==> (shares@.len() == 0 || has_duplicate_x(shares@)),
        r.is_some() ==> is_scalar(r.unwrap()) && r.unwrap()@ == enc(lagrange_sum(shares@, shares@.len() as int)),
{
    if shares.len() == 0 {
        return None;
    }
    let mut a: usize = 0;
    while a < shares.len()
        invariant
            0 <= a <= shares@.len(),
            forall|p: int, q: int| 0 <= p < a && p < q < shares@.len() ==> shares@[p].x != shares@[q].x,
        decreases shares@.len() - a,
    {
        let mut b: usize = a + 1;
        while b < shares.len()
            invariant
                0 <= a < shares@.len(),
                a + 1 <= b <= shares@.len(),
                forall|p: int, q: int| 0 <= p < a && p < q < shares@.len() ==> shares@[p].x != shares@[q].x,
                forall|q: int| a < q < b ==> shares@[a as int].x != shares@[q].x,
            decreases shares@.len() - b,
        {
            if crate::bytes::bytes32_eq(&shares[a].x, &shares[b].x) {
                assert(shares@[a as int].x == shares@[b as int].x) by {
                    assert(shares@[a as int].x@ =~= shares@[b as int].x@);
                }
                return None;
            }
            assert(shares@[a as int].x != shares@[b as int].x);
            b = b + 1;
        }
        a = a + 1;
    }
    let ghost m = group_order() as int;
    let mut secret = crate::group::scalar_zero();
    let mut i: usize = 0;
    while i < shares.len()
        invariant
            m == group_order() as int,
            forall|k: int| 0 <= k < shares@.len() ==> is_scalar(#[trigger] shares@[k].x) && is_scalar(shares@[k].y),
            !has_duplicate_x(shares@),
            0 <= i <= shares@.len(),
            is_scalar(secret),
            sc(secret) == lagrange_sum(shares@, i as int) % m,
        decreases shares@.len() - i,
    {
        let bi = lagrange_basis(shares, i);
        let term = crate::group::scalar_mul(shares[i].y, bi);
        let next = crate::group::scalar_add(secret, term);
        proof {
            let prev = lagrange_sum(shares@, i as int);
            let bas = basis(shares@, i as int, shares@.len() as int);
            lemma_mod_step(prev, sc(shares@[i as int].y) as int, bas, m);
        }
        secret = next;
        i = i + 1;
    }
    proof {
        crate::scalar::lemma_scalar_is_enc(secret);
        vstd::arithmetic::div_mod::lemma_mod_twice(lagrange_sum(shares@, shares@.len() as int), m);
    }
    Some(secret)
}

} // verus!
