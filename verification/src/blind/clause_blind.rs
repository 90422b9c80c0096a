//! The clause variant of blind Schnorr signing: the signer commits to two
//! nonces and answers two challenges, one real and one decoy, without
//! learning which is which.

use vstd::prelude::*;
use vstd::string::*;
use crate::bytes::le_nat;
use crate::hashing::spec_sha512;
use crate::scalar::{enc, sc, is_scalar, group_order};
use crate::group::{ristretto_valid, spec_basepoint_mul, spec_dlog, spec_point_enc, encodes};
use crate::blind::types::{BlindSignature, SignerKeypair};
use crate::blind::schnorr_blind::blinded_commitment;

verus! {

broadcast use crate::scalar::lemma_enc;

/// The challenge `H("specter-clause-blind-challenge:" ‖ R ‖ PK ‖ len(m) ‖ m)`
/// reduced modulo ℓ.
pub open spec fn clause_challenge(r: Seq<u8>, pk: Seq<u8>, message: Seq<u8>) -> Seq<u8> {
    enc(le_nat(spec_sha512("specter-clause-blind-challenge:".spec_bytes() + r + pk
        + vstd::bytes::spec_u64_to_le_bytes(message.len() as u64) + message)) as int)
}

/// Whether `sig` is a valid clause signature on `message` under `pk`.
pub open spec fn clause_signature_valid(pk: [u8; 32], message: Seq<u8>, sig: BlindSignature) -> bool {
    &&& ristretto_valid(pk@)
    &&& is_scalar(sig.s)
    &&& is_scalar(sig.e)
    &&& clause_challenge(spec_point_enc((sc(sig.s) - sc(sig.e) * spec_dlog(pk@)) % (group_order() as int)), pk@, message) == sig.e@
}

fn hash_challenge(r: &[u8; 32], pk: &[u8; 32], message: &[u8]) -> (e: [u8; 32])
    requires
        message@.len() <= u64::MAX,
    ensures
        is_scalar(e),
        e@ == clause_challenge(r@, pk@, message@),
{
    let mut buf: Vec<u8> = Vec::new();
    crate::bytes::append_bytes(&mut buf, "specter-clause-blind-challenge:".as_bytes());
    crate::bytes::append_bytes(&mut buf, r);
    crate::bytes::append_bytes(&mut buf, pk);
    let len = vstd::bytes::u64_to_le_bytes(message.len() as u64);
    crate::bytes::append_bytes(&mut buf, len.as_slice());
    crate::bytes::append_bytes(&mut buf, message);
    let h = crate::hashing::sha512(buf.as_slice());
    crate::group::scalar_from_digest(&h)
}

/// The signer's two secret nonces.
pub struct ClauseSession {
    k0: [u8; 32],
    k1: [u8; 32],
}

impl ClauseSession {
    pub closed spec fn k0(&self) -> [u8; 32] {
        self.k0
    }

    pub closed spec fn k1(&self) -> [u8; 32] {
        self.k1
    }

    /// Answers both challenges: `s0 = k0 + e0·x`, `s1 = k1 + e1·x`.
    pub fn respond(&self, e0: &[u8; 32], e1: &[u8; 32], signer_secret: &[u8; 32]) -> (s: ([u8; 32], [u8; 32]))
        requires
            is_scalar(self.k0()),
            is_scalar(self.k1()),
            is_scalar(*e0),
            is_scalar(*e1),
            is_scalar(*signer_secret),
        ensures
            s.0@ == enc(sc(self.k0()) + ((sc(*e0) * sc(*signer_secret)) % group_order()) as int),
            s.1@ == enc(sc(self.k1()) + ((sc(*e1) * sc(*signer_secret)) % group_order()) as int),
    {
        let s0 = crate::group::schnorr_response(self.k0, *e0, *signer_secret);
        let s1 = crate::group::schnorr_response(self.k1, *e1, *signer_secret);
        (s0, s1)
    }
}

impl Drop for ClauseSession {
    fn drop(&mut self)
        opens_invariants none
        no_unwind
    {
        crate::rng::wipe_array32(&mut self.k0);
        crate::rng::wipe_array32(&mut self.k1);
    }
}

impl SignerKeypair {
    /// Starts a clause session: two fresh nonces and their commitments
    /// `R0 = k0·B`, `R1 = k1·B`.
    pub fn new_clause_session(&self) -> (r: (ClauseSession, [u8; 32], [u8; 32]))
        ensures
            is_scalar(r.0.k0()),
            is_scalar(r.0.k1()),
            r.1@ == spec_basepoint_mul(r.0.k0()@),
            r.2@ == spec_basepoint_mul(r.0.k1()@),
            ristretto_valid(r.1@),
            ristretto_valid(r.2@),
            encodes(r.1@, sc(r.0.k0()) as int),
            encodes(r.2@, sc(r.0.k1()) as int),
    {
        let k0 = crate::group::random_scalar();
        let k1 = crate::group::random_scalar();
        let r0 = crate::group::basepoint_mul(k0);
        let r1 = crate::group::basepoint_mul(k1);
        (ClauseSession { k0, k1 }, r0, r1)
    }
}

/// The requester's secret choice of branch and blinding factors.
pub struct ClauseBlindingFactors {
    chosen: u8,
    alpha: [u8; 32],
    beta: [u8; 32],
}

impl ClauseBlindingFactors {
    pub closed spec fn chosen(&self) -> u8 {
        self.chosen
    }

    pub closed spec fn alpha(&self) -> [u8; 32] {
        self.alpha
    }

    pub closed spec fn beta(&self) -> [u8; 32] {
        self.beta
    }
}

impl Drop for ClauseBlindingFactors {
    fn drop(&mut self)
        opens_invariants none
        no_unwind
    {
        crate::rng::wipe_array32(&mut self.alpha);
        crate::rng::wipe_array32(&mut self.beta);
    }
}

/// Blinds the challenge: a random branch bit `b`, random `α, β`, the real
/// challenge `H(R_b + α·B + β·PK ‖ PK ‖ m) + β` in slot `b` and a random
/// decoy in the other slot. `None` when a commitment or `PK` does not
/// decode.
pub fn clause_blind_challenge(r0: &[u8; 32], r1: &[u8; 32], signer_pk: &[u8; 32], message: &[u8])
    -> (r: Option<(ClauseBlindingFactors, [u8; 32], [u8; 32])>)
    requires
        message@.len() <= u64::MAX,
    ensures
        r.is_some() == (ristretto_valid(r0@) && ristretto_valid(r1@) && ristretto_valid(signer_pk@)),
        r.is_some() ==> {
            let (f, e0, e1) = r.unwrap();
            let r_chosen = if f.chosen() == 1 { *r1 } else { *r0 };
            let e_real = enc(le_nat(clause_challenge(blinded_commitment(r_chosen@, f.alpha()@, f.beta()@, signer_pk@),
                signer_pk@, message@)) + sc(f.beta()) as int);
            &&& f.chosen() <= 1
            &&& is_scalar(f.alpha())
            &&& is_scalar(f.beta())
            &&& is_scalar(e0)
            &&& is_scalar(e1)
            &&& (if f.chosen() == 1 { e1@ == e_real } else { e0@ == e_real })
        },
{
    if !crate::group::point_is_valid(r0) || !crate::group::point_is_valid(r1) || !crate::group::point_is_valid(signer_pk) {
        return None;
    }
    let bit_bytes = crate::rng::random_bytes(1);
    let raw: u8 = bit_bytes[0];
    let b: u8 = raw & 1u8;
    assert(b <= 1) by (bit_vector)
        requires
            b == raw & 1u8;
    let alpha = crate::group::random_scalar();
    let beta = crate::group::random_scalar();
    let r_chosen = crate::ct::ct_select_point(r0, r1, b);
    let r_prime = crate::blind::schnorr_blind::blind_point(&r_chosen, &alpha, &beta, signer_pk);
    let e_prime = hash_challenge(&r_prime, signer_pk, message);
    let e_real = crate::group::scalar_add(e_prime, beta);
    let e_decoy = crate::group::random_scalar();
    let e0 = crate::ct::ct_select_scalar(&e_real, &e_decoy, b);
    let e1 = crate::ct::ct_select_scalar(&e_decoy, &e_real, b);
    Some((ClauseBlindingFactors { chosen: b, alpha, beta }, e0, e1))
}

/// Unblinds the answer of the chosen branch: `s = s_b + α` and `e` the
/// challenge of `R_b + α·B + β·PK`. `None` when a commitment or `PK` does
/// not decode.
pub fn clause_unblind(
    s0: &[u8; 32],
    s1: &[u8; 32],
    factors: &ClauseBlindingFactors,
    r0: &[u8; 32],
    r1: &[u8; 32],
    signer_pk: &[u8; 32],
    message: &[u8],
) -> (r: Option<BlindSignature>)
    requires
        is_scalar(*s0),
        is_scalar(*s1),
        factors.chosen() <= 1,
        is_scalar(factors.alpha()),
        is_scalar(factors.beta()),
        message@.len() <= u64::MAX,
    ensures
        r.is_some() == (ristretto_valid(r0@) && ristretto_valid(r1@) && ristretto_valid(signer_pk@)),
        r.is_some() ==> {
            let sig = r.unwrap();
            let s_chosen = if factors.chosen() == 1 { *s1 } else { *s0 };
            let r_chosen = if factors.chosen() == 1 { *r1 } else { *r0 };
            &&& sig.s@ == enc(sc(s_chosen) + sc(factors.alpha()) as int)
            &&& sig.e@ == clause_challenge(blinded_commitment(r_chosen@, factors.alpha()@, factors.beta()@, signer_pk@), signer_pk@, message@)
        },
{
    if !crate::group::point_is_valid(r0) || !crate::group::point_is_valid(r1) || !crate::group::point_is_valid(signer_pk) {
        return None;
    }
    let s_chosen = crate::ct::ct_select_scalar(s0, s1, factors.chosen);
    let r_chosen = crate::ct::ct_select_point(r0, r1, factors.chosen);
    let s = crate::group::scalar_add(s_chosen, factors.alpha);
    let r_prime = crate::blind::schnorr_blind::blind_point(&r_chosen, &factors.alpha, &factors.beta, signer_pk);
    let e = hash_challenge(&r_prime, signer_pk, message);
    Some(BlindSignature { s, e })
}

/// Verifies a clause signature: recovers `R' = s·B − e·PK` and compares
/// its challenge with `e` in constant time.
pub fn verify(pk: &[u8; 32], message: &[u8], sig: &BlindSignature) -> (ok: bool)
    requires
        message@.len() <= u64::MAX,
    ensures
        ok == clause_signature_valid(*pk, message@, *sig),
{
    if !crate::group::point_is_valid(pk) {
        return false;
    }
    let s = match crate::group::scalar_from_canonical(sig.s) {
        Some(s) => s,
        None => return false,
    };
    let e = match crate::group::scalar_from_canonical(sig.e) {
        Some(e) => e,
        None => return false,
    };
    let sb = crate::group::basepoint_mul(s);
    let epk = crate::group::point_mul(e, *pk);
    let r_prime = crate::group::point_sub(sb, epk);
    proof {
        vstd::arithmetic::div_mod::lemma_small_mod(sc(s), group_order());
        vstd::arithmetic::div_mod::lemma_sub_mod_noop_right(sc(s) as int, sc(e) * spec_dlog(pk@), group_order() as int);
    }
    let expected = hash_challenge(&r_prime, pk, message);
    crate::ct::ct_eq32(&expected, &e)
}

/// A clause signature made by the protocol verifies: when the signer's
/// key pair holds `x` and `x·B`, its commitment of the chosen branch is
/// `R_b = k_b·B`, it answers that branch's blinded challenge `e_b` with
/// `k_b + e_b·x`, and the requester unblinds with the factors that made
/// `e_b`, the signature verifies on the message under the signer's key.
/// The decoy branch plays no part.
pub proof fn law_clause_signature_verifies(
    keys: SignerKeypair,
    k: [u8; 32],
    r: [u8; 32],
    alpha: [u8; 32],
    beta: [u8; 32],
    e_blind: [u8; 32],
    s_prime: [u8; 32],
    message: Seq<u8>,
    sig: BlindSignature,
)
    requires
        keys.wf(),
        is_scalar(k),
        encodes(r@, sc(k) as int),
        is_scalar(alpha),
        is_scalar(beta),
        e_blind@ == enc(le_nat(clause_challenge(blinded_commitment(r@, alpha@, beta@, keys.pk()@), keys.pk()@, message)) + sc(beta) as int),
        s_prime@ == enc(sc(k) + ((sc(e_blind) * sc(keys.sk())) % group_order()) as int),
        sig.s@ == enc(sc(s_prime) + sc(alpha) as int),
        sig.e@ == clause_challenge(blinded_commitment(r@, alpha@, beta@, keys.pk()@), keys.pk()@, message),
    ensures
        clause_signature_valid(keys.pk(), message, sig),
{
    let l = group_order() as int;
    crate::scalar::lemma_group_order_fits();
    let x = sc(keys.sk()) as int;
    let kk = sc(k) as int;
    let a = sc(alpha) as int;
    let b = sc(beta) as int;
    let e = le_nat(sig.e@) as int;
    assert(0 <= e < l);
    let eb = sc(e_blind) as int;
    assert(eb == (e + b) % l);
    let sp = sc(s_prime) as int;
    assert(sp == (kk + (eb * x) % l) % l);
    let s = sc(sig.s) as int;
    assert(s == (sp + a) % l);
    crate::blind::schnorr_blind::lemma_unblinded_response(x, kk, a, b, e, eb, sp, s);
    assert(spec_dlog(r@) == kk);
    assert(spec_dlog(keys.pk()@) == x);
}

} // verus!
