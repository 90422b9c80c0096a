//! Range proofs for 64-bit values under a Pedersen commitment
//! `C = v·G + r·H`: a commitment to each bit with an OR-proof that it
//! opens to 0 or 1, and the check that the bit commitments, weighted by
//! powers of two, add up to `C`.

use vstd::prelude::*;
use vstd::string::*;
use vstd::arithmetic::power2::pow2;
use crate::bytes::le_nat;
use crate::hashing::spec_sha512;
use crate::scalar::{enc, is_scalar, sc, group_order, scalar_array};
use crate::group::{ristretto_valid, spec_point_mul, spec_point_add, spec_point_sub};
use crate::primitives::pedersen::PedersenParams;
use crate::blind::dkg::identity_enc;

verus! {

broadcast use crate::scalar::lemma_enc;

/// Number of bits proved.
pub const RANGE_BITS: usize = 64;

/// An OR-proof that a commitment opens to `0·G + s·H` or `1·G + s·H`.
#[derive(Clone, Copy, Debug)]
pub struct BitOrProof {
    pub a0: [u8; 32],
    pub a1: [u8; 32],
    pub c0: [u8; 32],
    pub c1: [u8; 32],
    pub r0: [u8; 32],
    pub r1: [u8; 32],
}

/// A range proof: one commitment and one OR-proof per bit.
#[derive(Clone, Debug)]
pub struct RangeProof {
    pub bit_commits: Vec<[u8; 32]>,
    pub bit_proofs: Vec<BitOrProof>,
}

/// The joint challenge `H("specter-range-bit-or:" ‖ B ‖ A0 ‖ A1)` mod ℓ.
pub open spec fn or_challenge_spec(b: Seq<u8>, a0: Seq<u8>, a1: Seq<u8>) -> Seq<u8> {
    enc(le_nat(spec_sha512("specter-range-bit-or:".spec_bytes() + b + a0 + a1)) as int)
}

/// Whether an OR-proof for the bit commitment `b` verifies: the two
/// challenges add up to the joint challenge, `r0·H == A0 + c0·B` and
/// `r1·H == A1 + c1·(B − G)`.
pub open spec fn bit_proof_valid(params: PedersenParams, b: [u8; 32], p: BitOrProof) -> bool {
    &&& ristretto_valid(b@)
    &&& ristretto_valid(p.a0@)
    &&& ristretto_valid(p.a1@)
    &&& is_scalar(p.c0) && is_scalar(p.c1) && is_scalar(p.r0) && is_scalar(p.r1)
    &&& enc((sc(p.c0) + sc(p.c1)) as int) == or_challenge_spec(b@, p.a0@, p.a1@)
    &&& spec_point_mul(p.r0@, params.h@) == spec_point_add(p.a0@, spec_point_mul(p.c0@, b@))
    &&& spec_point_mul(p.r1@, params.h@) == spec_point_add(p.a1@, spec_point_mul(p.c1@, spec_point_sub(b@, params.g@)))
}

/// `Σ_{i<n} 2^i·B_i`, added from the identity up.
pub open spec fn weighted_sum(bs: Seq<[u8; 32]>, n: int) -> Seq<u8>
    decreases n,
{
    if n <= 0 {
        identity_enc()
    } else {
        spec_point_add(weighted_sum(bs, n - 1), spec_point_mul(enc(pow2((n - 1) as nat) as int), bs[n - 1]@))
    }
}

/// Whether a range proof verifies for the commitment `c`.
pub open spec fn range_proof_valid(params: PedersenParams, c: [u8; 32], p: RangeProof) -> bool {
    &&& p.bit_commits@.len() == RANGE_BITS
    &&& p.bit_proofs@.len() == RANGE_BITS
    &&& forall|i: int| 0 <= i < RANGE_BITS ==> #[trigger] bit_proof_valid(params, p.bit_commits@[i], p.bit_proofs@[i])
    &&& weighted_sum(p.bit_commits@, RANGE_BITS as int) == c@
}

/// Bit `i` of `v`.
pub open spec fn bit_of(v: u64, i: int) -> u64 {
    (v >> (i as u64)) & 1u64
}

/// `Σ_{i<n} 2^i·s_i` over integers.
pub open spec fn blind_sum(ss: Seq<[u8; 32]>, n: int) -> int
    decreases n,
{
    if n <= 0 {
        0
    } else {
        blind_sum(ss, n - 1) + pow2((n - 1) as nat) * sc(ss[n - 1])
    }
}

/// An honestly made OR-proof for a commitment `b` to the bit `bit` (0, or
/// any other value for 1) with
/// blinding `s`, from the nonce `w` and the simulated challenge and
/// response `c_sim`, `r_sim`: the slot of the true bit is answered with
/// `w`, the other one simulated.
pub open spec fn honest_bit_proof(params: PedersenParams, b: [u8; 32], bit: u64, s: [u8; 32],
    w: [u8; 32], c_sim: [u8; 32], r_sim: [u8; 32], p: BitOrProof) -> bool
{
    let c = or_challenge_spec(b@, p.a0@, p.a1@);
    &&& is_scalar(w) && is_scalar(c_sim) && is_scalar(r_sim)
    &&& if bit == 0 {
        &&& p.a0@ == spec_point_mul(w@, params.h@)
        &&& p.a1@ == spec_point_sub(spec_point_mul(r_sim@, params.h@), spec_point_mul(c_sim@, spec_point_sub(b@, params.g@)))
        &&& p.c0@ == enc(le_nat(c) - sc(c_sim))
        &&& p.c1 == c_sim
        &&& p.r0@ == enc(sc(w) + ((sc(p.c0) * sc(s)) % group_order()) as int)
        &&& p.r1 == r_sim
    } else {
        &&& p.a0@ == spec_point_sub(spec_point_mul(r_sim@, params.h@), spec_point_mul(c_sim@, b@))
        &&& p.a1@ == spec_point_mul(w@, params.h@)
        &&& p.c0 == c_sim
        &&& p.c1@ == enc(le_nat(c) - sc(c_sim))
        &&& p.r0 == r_sim
        &&& p.r1@ == enc(sc(w) + ((sc(p.c1) * sc(s)) % group_order()) as int)
    }
}

/// Whether `p` is an honestly made OR-proof for the commitment `b` to
/// `bit` with blinding `s`, for some nonce and simulated values.
pub open spec fn bit_proof_honest(params: PedersenParams, b: [u8; 32], bit: u64, s: [u8; 32], p: BitOrProof) -> bool {
    exists|w: [u8; 32], c_sim: [u8; 32], r_sim: [u8; 32]| #[trigger] honest_bit_proof(params, b, bit, s, w, c_sim, r_sim, p)
}

fn or_challenge(b: &[u8; 32], a0: &[u8; 32], a1: &[u8; 32]) -> (c: [u8; 32])
    ensures
        is_scalar(c),
        c@ == or_challenge_spec(b@, a0@, a1@),
{
    let mut buf: Vec<u8> = Vec::new();
    crate::bytes::append_bytes(&mut buf, "specter-range-bit-or:".as_bytes());
    crate::bytes::append_bytes(&mut buf, b);
    crate::bytes::append_bytes(&mut buf, a0);
    crate::bytes::append_bytes(&mut buf, a1);
    let h = crate::hashing::sha512(buf.as_slice());
    crate::group::scalar_from_digest(&h)
}

/// Proves that `commitment = bit·G + s·H` commits to 0 or 1: the slot of
/// the true bit (0 when `bit == 0`, else 1) is answered, the other one
/// simulated.
pub fn prove_bit_or(params: &PedersenParams, commitment: &[u8; 32], bit: u64, s: &[u8; 32]) -> (p: BitOrProof)
    requires
        params.wf(),
        ristretto_valid(commitment@),
        is_scalar(*s),
    ensures
        ristretto_valid(p.a0@),
        ristretto_valid(p.a1@),
        is_scalar(p.c0) && is_scalar(p.c1) && is_scalar(p.r0) && is_scalar(p.r1),
        bit_proof_honest(*params, *commitment, bit, *s, p),
{
    let w = crate::group::random_scalar();
    let a_real = crate::group::point_mul(w, params.h);
    let c_sim = crate::group::random_scalar();
    let r_sim = crate::group::random_scalar();
    if bit == 0 {
        let statement_1 = crate::group::point_sub(*commitment, params.g);
        let a1 = crate::group::point_sub(crate::group::point_mul(r_sim, params.h), crate::group::point_mul(c_sim, statement_1));
        let a0 = a_real;
        let c = or_challenge(commitment, &a0, &a1);
        let c0 = crate::group::scalar_sub(c, c_sim);
        let r0 = crate::group::schnorr_response(w, c0, *s);
        let p = BitOrProof { a0, a1, c0, c1: c_sim, r0, r1: r_sim };
        assert(honest_bit_proof(*params, *commitment, bit, *s, w, c_sim, r_sim, p));
        p
    } else {
        let statement_0 = *commitment;
        let a0 = crate::group::point_sub(crate::group::point_mul(r_sim, params.h), crate::group::point_mul(c_sim, statement_0));
        let a1 = a_real;
        let c = or_challenge(commitment, &a0, &a1);
        let c1 = crate::group::scalar_sub(c, c_sim);
        let r1 = crate::group::schnorr_response(w, c1, *s);
        let p = BitOrProof { a0, a1, c0: c_sim, c1, r0: r_sim, r1 };
        assert(honest_bit_proof(*params, *commitment, bit, *s, w, c_sim, r_sim, p));
        p
    }
}

/// Checks an OR-proof for the bit commitment `commitment`.
pub fn verify_bit_or(params: &PedersenParams, commitment: &[u8; 32], proof: &BitOrProof) -> (ok: bool)
    requires
        params.wf(),
    ensures
        ok == bit_proof_valid(*params, *commitment, *proof),
{
    if !crate::group::point_is_valid(commitment) || !crate::group::point_is_valid(&proof.a0)
        || !crate::group::point_is_valid(&proof.a1) {
        return false;
    }
    let c0 = match crate::group::scalar_from_canonical(proof.c0) {
        Some(x) => x,
        None => return false,
    };
    let c1 = match crate::group::scalar_from_canonical(proof.c1) {
        Some(x) => x,
        None => return false,
    };
    let r0 = match crate::group::scalar_from_canonical(proof.r0) {
        Some(x) => x,
        None => return false,
    };
    let r1 = match crate::group::scalar_from_canonical(proof.r1) {
        Some(x) => x,
        None => return false,
    };
    let c = or_challenge(commitment, &proof.a0, &proof.a1);
    let sum = crate::group::scalar_add(c0, c1);
    if !crate::bytes::bytes32_eq(&sum, &c) {
        return false;
    }
    let lhs0 = crate::group::point_mul(r0, params.h);
    let rhs0 = crate::group::point_add(proof.a0, crate::group::point_mul(c0, *commitment));
    if !crate::bytes::bytes32_eq(&lhs0, &rhs0) {
        return false;
    }
    let lhs1 = crate::group::point_mul(r1, params.h);
    let rhs1 = crate::group::point_add(proof.a1, crate::group::point_mul(c1, crate::group::point_sub(*commitment, params.g)));
    crate::bytes::bytes32_eq(&lhs1, &rhs1)
}

/// Checks a range proof against the commitment `commitment`.
pub fn verify_range_64(params: &PedersenParams, commitment: &[u8; 32], proof: &RangeProof) -> (ok: bool)
    requires
        params.wf(),
    ensures
        ok == range_proof_valid(*params, *commitment, *proof),
{
    if proof.bit_commits.len() != RANGE_BITS || proof.bit_proofs.len() != RANGE_BITS {
        return false;
    }
    let mut i: usize = 0;
    while i < RANGE_BITS
        invariant
            params.wf(),
            proof.bit_commits@.len() == RANGE_BITS,
            proof.bit_proofs@.len() == RANGE_BITS,
            0 <= i <= RANGE_BITS,
            forall|j: int| 0 <= j < i ==> #[trigger] bit_proof_valid(*params, proof.bit_commits@[j], proof.bit_proofs@[j]),
        decreases RANGE_BITS - i,
    {
        if !verify_bit_or(params, &proof.bit_commits[i], &proof.bit_proofs[i]) {
            return false;
        }
        i = i + 1;
    }
    let mut recomputed = crate::group::identity_point();
    proof { assert(recomputed@ =~= identity_enc()); }
    let mut two = crate::group::scalar_one();
    proof {
        vstd::arithmetic::power2::lemma2_to64();
        crate::scalar::lemma_scalar_is_enc(two);
    }
    let mut i: usize = 0;
    while i < RANGE_BITS
        invariant
            proof.bit_commits@.len() == RANGE_BITS,
            forall|j: int| 0 <= j < RANGE_BITS ==> #[trigger] bit_proof_valid(*params, proof.bit_commits@[j], proof.bit_proofs@[j]),
            0 <= i <= RANGE_BITS,
            ristretto_valid(recomputed@),
            recomputed@ == weighted_sum(proof.bit_commits@, i as int),
            sc(two) == pow2(i as nat),
            is_scalar(two),
            two@ == enc(pow2(i as nat) as int),
        decreases RANGE_BITS - i,
    {
        assert(bit_proof_valid(*params, proof.bit_commits@[i as int], proof.bit_proofs@[i as int]));
        recomputed = crate::group::point_add(recomputed, crate::group::point_mul(two, proof.bit_commits[i]));
        proof {
            vstd::arithmetic::power2::lemma_pow2_unfold((i + 1) as nat);
            vstd::arithmetic::power2::lemma2_to64_rest();
            crate::scalar::lemma_group_order_fits();
            assert(pow2((i + 1) as nat) < group_order()) by {
                vstd::arithmetic::power2::lemma2_to64();
                if i + 1 < 64 {
                    vstd::arithmetic::power2::lemma_pow2_strictly_increases((i + 1) as nat, 64);
                }
            }
            vstd::arithmetic::div_mod::lemma_small_mod(pow2((i + 1) as nat), group_order());
        }
        two = crate::group::scalar_add(two, two);
        i = i + 1;
    }
    crate::bytes::bytes32_eq(&recomputed, commitment)
}

/// Solving for the last blinding: with `P·I ≡ 1`, adding
/// `P·((r − w) · I)` to `w` gives `r` modulo `l`.
proof fn lemma_last_blinding(w: int, r: int, p: int, inv: int, l: int)
    requires
        l > 1,
        0 <= r < l,
        (p * inv) % l == 1,
    ensures
        (w + p * ((((r - (w % l)) % l) * inv) % l)) % l == r,
{
    let d = (r - (w % l)) % l;
    vstd::arithmetic::div_mod::lemma_mod_bound(r - (w % l), l);
    let x = p * ((d * inv) % l);
    vstd::arithmetic::div_mod::lemma_mul_mod_noop_right(p, d * inv, l);
    assert(p * (d * inv) == d * (p * inv)) by (nonlinear_arith);
    vstd::arithmetic::div_mod::lemma_mul_mod_noop_right(d, p * inv, l);
    vstd::arithmetic::div_mod::lemma_small_mod(d as nat, l as nat);
    assert(x % l == d);
    vstd::arithmetic::div_mod::lemma_add_mod_noop_right(w, x, l);
    vstd::arithmetic::div_mod::lemma_add_mod_noop_right(w, r - (w % l), l);
    vstd::arithmetic::div_mod::lemma_fundamental_div_mod(w, l);
    assert(w + (r - (w % l)) == l * (w / l) + r);
    vstd::arithmetic::div_mod::lemma_mod_multiples_vanish(w / l, r, l);
    vstd::arithmetic::div_mod::lemma_small_mod(r as nat, l as nat);
}

/// `blind_sum` reads only the first `n` entries.
proof fn lemma_blind_sum_prefix(s1: Seq<[u8; 32]>, s2: Seq<[u8; 32]>, n: int)
    requires
        forall|k: int| 0 <= k < n ==> s1[k] == s2[k],
    ensures
        blind_sum(s1, n) == blind_sum(s2, n),
    decreases n,
{
    if n > 0 {
        lemma_blind_sum_prefix(s1, s2, n - 1);
    }
}

/// Splits the blinding `r` into one blinding per bit: 63 random ones and
/// a last one chosen so that `Σ 2^i·s_i ≡ r (mod ℓ)`.
fn split_blinding(r: &[u8; 32]) -> (bl: Vec<[u8; 32]>)
    requires
        is_scalar(*r),
    ensures
        bl@.len() == RANGE_BITS,
        forall|j: int| 0 <= j < RANGE_BITS ==> is_scalar(#[trigger] bl@[j]),
        blind_sum(bl@, RANGE_BITS as int) % (group_order() as int) == sc(*r),
{
    let ghost l = group_order() as int;
    let mut bl: Vec<[u8; 32]> = Vec::new();
    let mut i: usize = 0;
    while i < RANGE_BITS - 1
        invariant
            0 <= i <= RANGE_BITS - 1,
            bl@.len() == i,
            forall|j: int| 0 <= j < i ==> is_scalar(#[trigger] bl@[j]),
        decreases RANGE_BITS - 1 - i,
    {
        bl.push(crate::group::random_scalar());
        i = i + 1;
    }
    let mut acc = crate::group::scalar_zero();
    let mut two = crate::group::scalar_one();
    proof {
        vstd::arithmetic::power2::lemma2_to64();
        crate::scalar::lemma_group_order_fits();
    }
    let mut i: usize = 0;
    while i < RANGE_BITS - 1
        invariant
            l == group_order() as int,
            l > 1,
            bl@.len() == RANGE_BITS - 1,
            forall|j: int| 0 <= j < RANGE_BITS - 1 ==> is_scalar(#[trigger] bl@[j]),
            0 <= i <= RANGE_BITS - 1,
            is_scalar(acc),
            sc(acc) == blind_sum(bl@, i as int) % l,
            is_scalar(two),
            sc(two) == pow2(i as nat),
        decreases RANGE_BITS - 1 - i,
    {
        let m = crate::group::scalar_mul(two, bl[i]);
        let acc2 = crate::group::scalar_add(acc, m);
        proof {
            let w = blind_sum(bl@, i as int);
            let t = pow2(i as nat) * sc(bl@[i as int]);
            vstd::arithmetic::div_mod::lemma_add_mod_noop(w, t as int, l);
            vstd::arithmetic::div_mod::lemma_small_mod(sc(acc), l as nat);
            assert(sc(acc2) == (w + t) % l);
            vstd::arithmetic::power2::lemma_pow2_unfold((i + 1) as nat);
            vstd::arithmetic::power2::lemma2_to64_rest();
            if i + 1 < 63 {
                vstd::arithmetic::power2::lemma_pow2_strictly_increases((i + 1) as nat, 63);
            }
            vstd::arithmetic::div_mod::lemma_small_mod(pow2((i + 1) as nat), l as nat);
        }
        acc = acc2;
        two = crate::group::scalar_add(two, two);
        i = i + 1;
    }
    // two = 2^63 here; solve for the last blinding.
    proof {
        vstd::arithmetic::power2::lemma2_to64_rest();
    }
    let inv = crate::group::scalar_invert(two);
    let diff = crate::group::scalar_sub(*r, acc);
    let s_last = crate::group::scalar_mul(diff, inv);
    let ghost prefix = bl@;
    bl.push(s_last);
    proof {
        lemma_blind_sum_prefix(prefix, bl@, 63);
        let w = blind_sum(prefix, 63);
        vstd::arithmetic::div_mod::lemma_small_mod(sc(acc), l as nat);
        vstd::arithmetic::div_mod::lemma_small_mod(sc(*r), l as nat);
        assert(sc(diff) == (sc(*r) - (w % l)) % l);
        assert(sc(s_last) == ((sc(diff) * sc(inv)) as int % l));
        lemma_last_blinding(w, sc(*r) as int, pow2(63) as int, sc(inv) as int, l);
        assert(blind_sum(bl@, 64) == w + pow2(63) * sc(s_last));
    }
    bl
}

/// Proves that `v·G + r·H` commits to a 64-bit value: 63 random bit
/// blindings and a last one chosen so that `Σ 2^i·s_i ≡ r`, a commitment
/// `b_i·G + s_i·H` to each bit `b_i` of `v`, and an OR-proof for each.
pub fn prove_range_64(params: &PedersenParams, v: u64, r: &[u8; 32]) -> (p: RangeProof)
    requires
        params.wf(),
        is_scalar(*r),
    ensures
        p.bit_commits@.len() == RANGE_BITS,
        p.bit_proofs@.len() == RANGE_BITS,
        exists|bl: Seq<[u8; 32]>| #[trigger] blind_sum(bl, RANGE_BITS as int) % (group_order() as int) == sc(*r)
            && bl.len() == RANGE_BITS
            && (forall|i: int| 0 <= i < RANGE_BITS ==> is_scalar(#[trigger] bl[i]))
            && (forall|i: int| 0 <= i < RANGE_BITS ==> (#[trigger] p.bit_commits@[i])@
                == params.spec_commit(scalar_array(bit_of(v, i) as int), bl[i]))
            && (forall|i: int| 0 <= i < RANGE_BITS ==>
                #[trigger] bit_proof_honest(*params, p.bit_commits@[i], bit_of(v, i), bl[i], p.bit_proofs@[i])),
{
    let bl = split_blinding(r);
    let mut bit_commits: Vec<[u8; 32]> = Vec::new();
    let mut bit_proofs: Vec<BitOrProof> = Vec::new();
    let mut i: usize = 0;
    while i < RANGE_BITS
        invariant
            params.wf(),
            bl@.len() == RANGE_BITS,
            forall|j: int| 0 <= j < RANGE_BITS ==> is_scalar(#[trigger] bl@[j]),
            0 <= i <= RANGE_BITS,
            bit_commits@.len() == i,
            bit_proofs@.len() == i,
            forall|j: int| 0 <= j < i ==> (#[trigger] bit_commits@[j])@ == params.spec_commit(scalar_array(bit_of(v, j) as int), bl@[j]),
            forall|j: int| 0 <= j < i ==> #[trigger] bit_proof_honest(*params, bit_commits@[j], bit_of(v, j), bl@[j], bit_proofs@[j]),
        decreases RANGE_BITS - i,
    {
        let bit: u64 = (v >> (i as u64)) & 1u64;
        let b_scalar = crate::group::scalar_from_u64(bit);
        proof { crate::scalar::lemma_scalar_array(b_scalar, bit as int); }
        let b_i = params.commit(&b_scalar, &bl[i]);
        let proof_i = prove_bit_or(params, &b_i, bit, &bl[i]);
        let ghost oc = bit_commits@;
        let ghost op = bit_proofs@;
        bit_commits.push(b_i);
        bit_proofs.push(proof_i);
        proof {
            assert(bit == bit_of(v, i as int));
            assert forall|j: int| 0 <= j < i + 1 implies
                #[trigger] bit_proof_honest(*params, bit_commits@[j], bit_of(v, j), bl@[j], bit_proofs@[j]) by {
                if j < i {
                    assert(oc[j] == bit_commits@[j] && op[j] == bit_proofs@[j]);
                    assert(bit_proof_honest(*params, oc[j], bit_of(v, j), bl@[j], op[j]));
                }
            }
        }
        i = i + 1;
    }
    RangeProof { bit_commits, bit_proofs }
}

} // verus!
