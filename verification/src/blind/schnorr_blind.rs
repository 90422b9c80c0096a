//! Blind Schnorr signatures over Ristretto255.
//!
//! 1. The signer picks a nonce `k` and sends `R = k·B`.
//! 2. The requester picks blinding factors `α, β`, computes
//!    `R' = R + α·B + β·PK`, `e' = H(R' ‖ PK ‖ m)` and sends `e = e' + β`.
//! 3. The signer answers `s' = k + e·x`.
//! 4. The requester unblinds: `(s, e) = (s' + α, e')`.
//!
//! The signer never sees the message or the final signature. Plain blind
//! Schnorr is forgeable with many concurrent sessions, so the
//! rate-limited signer allows one open session at a time.

use vstd::prelude::*;
use vstd::string::*;
use crate::bytes::le_nat;
use crate::hashing::spec_sha512;
use crate::scalar::{enc, sc, is_scalar, group_order};
use crate::group::{ristretto_valid, spec_basepoint_mul, spec_dlog, spec_point_enc, encodes};
use crate::blind::types::{BlindSignature, SignerKeypair};

verus! {

broadcast use crate::scalar::lemma_enc;

/// The bytes hashed into a challenge.
pub open spec fn challenge_input(r: Seq<u8>, pk: Seq<u8>, message: Seq<u8>) -> Seq<u8> {
    "specter-blind-sig-challenge:".spec_bytes() + r + pk + vstd::bytes::spec_u64_to_le_bytes(message.len() as u64) + message
}

/// The challenge `H(R ‖ PK ‖ len(m) ‖ m)` reduced to a scalar.
pub open spec fn spec_challenge(r: Seq<u8>, pk: Seq<u8>, message: Seq<u8>) -> Seq<u8> {
    enc(le_nat(spec_sha512(challenge_input(r, pk, message))) as int)
}

/// The encoding of the blinded commitment `R + α·B + β·PK`.
pub open spec fn blinded_commitment(r: Seq<u8>, alpha: Seq<u8>, beta: Seq<u8>, pk: Seq<u8>) -> Seq<u8> {
    spec_point_enc((spec_dlog(r) + le_nat(alpha) + le_nat(beta) * spec_dlog(pk)) % (group_order() as int))
}

/// Whether `sig` is a valid signature on `message` under `pk`: with
/// `R' = s·B − e·PK`, the challenge of `R'` is `e`.
pub open spec fn signature_valid(pk: [u8; 32], message: Seq<u8>, sig: BlindSignature) -> bool {
    &&& ristretto_valid(pk@)
    &&& is_scalar(sig.s)
    &&& is_scalar(sig.e)
    &&& spec_challenge(spec_point_enc((sc(sig.s) - sc(sig.e) * spec_dlog(pk@)) % (group_order() as int)), pk@, message) == sig.e@
}

/// The challenge of a message for a commitment and key.
fn hash_challenge(r: &[u8; 32], pk: &[u8; 32], message: &[u8]) -> (e: [u8; 32])
    requires
        message@.len() <= u64::MAX,
    ensures
        is_scalar(e),
        e@ == spec_challenge(r@, pk@, message@),
{
    let mut buf: Vec<u8> = Vec::new();
    crate::bytes::append_bytes(&mut buf, "specter-blind-sig-challenge:".as_bytes());
    crate::bytes::append_bytes(&mut buf, r);
    crate::bytes::append_bytes(&mut buf, pk);
    let len = vstd::bytes::u64_to_le_bytes(message.len() as u64);
    crate::bytes::append_bytes(&mut buf, len.as_slice());
    crate::bytes::append_bytes(&mut buf, message);
    let h = crate::hashing::sha512(buf.as_slice());
    crate::group::scalar_from_digest(&h)
}

// ─── Signer side ───────────────────────────────────────────────────────

/// A signing session: the secret nonce.
pub struct SignerSession {
    k: [u8; 32],
}

impl SignerSession {
    /// The nonce.
    pub closed spec fn nonce(&self) -> [u8; 32] {
        self.k
    }

    /// The answer to a blinded challenge: `k + challenge·secret`.
    pub fn respond(&self, challenge: &[u8; 32], signer_secret: &[u8; 32]) -> (s: [u8; 32])
        requires
            is_scalar(self.nonce()),
            is_scalar(*challenge),
            is_scalar(*signer_secret),
        ensures
            is_scalar(s),
            s@ == enc(sc(self.nonce()) + ((sc(*challenge) * sc(*signer_secret)) % group_order()) as int),
    {
        crate::group::schnorr_response(self.k, *challenge, *signer_secret)
    }
}

impl Drop for SignerSession {
    fn drop(&mut self)
        opens_invariants none
        no_unwind
    {
        crate::rng::wipe_array32(&mut self.k);
    }
}

/// A fresh session and its commitment `R = k·B`.
pub fn new_session() -> (r: (SignerSession, [u8; 32]))
    ensures
        is_scalar(r.0.nonce()),
        r.1@ == spec_basepoint_mul(r.0.nonce()@),
        ristretto_valid(r.1@),
        encodes(r.1@, sc(r.0.nonce()) as int),
{
    let k = crate::group::random_scalar();
    let r = crate::group::basepoint_mul(k);
    (SignerSession { k }, r)
}

/// A signer that allows at most one open session at a time.
pub struct RateLimitedSigner {
    keypair: SignerKeypair,
    session_active: bool,
}

/// An open session of a rate-limited signer: the session and its
/// commitment `R`, which is sent to the requester.
pub struct SessionGuard {
    pub session: SignerSession,
    pub commitment: [u8; 32],
}

impl RateLimitedSigner {
    /// Whether a session is open.
    pub closed spec fn active(&self) -> bool {
        self.session_active
    }

    /// The key pair.
    pub closed spec fn key(&self) -> &SignerKeypair {
        &self.keypair
    }

    /// A signer with no open session.
    pub fn new(keypair: SignerKeypair) -> (s: Self)
        ensures
            !s.active(),
            *s.key() == keypair,
    {
        RateLimitedSigner { keypair, session_active: false }
    }

    /// Opens a session; `None` while another one is open.
    pub fn new_session(&mut self) -> (g: Option<SessionGuard>)
        ensures
            *final(self).key() == *old(self).key(),
            old(self).active() ==> g.is_none() && final(self).active(),
            !old(self).active() ==> g.is_some() && final(self).active(),
            g.is_some() ==> {
                let s = g.unwrap();
                &&& is_scalar(s.session.nonce())
                &&& s.commitment@ == spec_basepoint_mul(s.session.nonce()@)
                &&& ristretto_valid(s.commitment@)
                &&& encodes(s.commitment@, sc(s.session.nonce()) as int)
            },
    {
        if self.session_active {
            return None;
        }
        self.session_active = true;
        let (session, commitment) = new_session();
        Some(SessionGuard { session, commitment })
    }

    /// Closes the open session, if any.
    pub fn end_session(&mut self)
        ensures
            *final(self).key() == *old(self).key(),
            !final(self).active(),
    {
        self.session_active = false;
    }

    /// Closes a session, consuming it.
    pub fn finish_session(&mut self, _guard: SessionGuard)
        ensures
            *final(self).key() == *old(self).key(),
            !final(self).active(),
    {
        self.session_active = false;
    }

    /// The key pair.
    pub fn keypair(&self) -> (k: &SignerKeypair)
        ensures
            *k == *self.key(),
    {
        &self.keypair
    }

    /// The public key.
    pub fn public(&self) -> (pk: [u8; 32])
        ensures
            pk == self.key().pk(),
    {
        self.keypair.public_key()
    }
}

// ─── Requester side ────────────────────────────────────────────────────

/// The requester's secret blinding factors.
pub struct BlindingFactors {
    alpha: [u8; 32],
    beta: [u8; 32],
}

impl BlindingFactors {
    pub closed spec fn alpha(&self) -> [u8; 32] {
        self.alpha
    }

    pub closed spec fn beta(&self) -> [u8; 32] {
        self.beta
    }
}

impl Drop for BlindingFactors {
    fn drop(&mut self)
        opens_invariants none
        no_unwind
    {
        crate::rng::wipe_array32(&mut self.alpha);
        crate::rng::wipe_array32(&mut self.beta);
    }
}

pub(crate) fn blind_point(signer_r: &[u8; 32], alpha: &[u8; 32], beta: &[u8; 32], signer_pk: &[u8; 32]) -> (p: [u8; 32])
    requires
        ristretto_valid(signer_r@),
        ristretto_valid(signer_pk@),
        is_scalar(*alpha),
        is_scalar(*beta),
    ensures
        p@ == blinded_commitment(signer_r@, alpha@, beta@, signer_pk@),
{
    let a = crate::group::basepoint_mul(*alpha);
    let b = crate::group::point_mul(*beta, *signer_pk);
    let t = crate::group::point_add(*signer_r, a);
    let p = crate::group::point_add(t, b);
    proof {
        let l = group_order() as int;
        let x = spec_dlog(signer_r@) + sc(*alpha);
        let y = sc(*beta) * spec_dlog(signer_pk@);
        vstd::arithmetic::div_mod::lemma_add_mod_noop(x, y, l);
        vstd::arithmetic::div_mod::lemma_mod_twice(x, l);
        vstd::arithmetic::div_mod::lemma_mod_twice(y, l);
    }
    p
}

/// Blinds the challenge of `message` for the signer's commitment `R`:
/// fresh random `α, β`, and the blinded challenge `H(R' ‖ PK ‖ m) + β`.
/// `None` when `R` or `PK` does not decode.
pub fn blind_challenge(signer_r: &[u8; 32], signer_pk: &[u8; 32], message: &[u8]) -> (r: Option<(BlindingFactors, [u8; 32])>)
    requires
        message@.len() <= u64::MAX,
    ensures
        r.is_some() == (ristretto_valid(signer_r@) && ristretto_valid(signer_pk@)),
        r.is_some() ==> {
            let (f, e) = r.unwrap();
            &&& is_scalar(f.alpha())
            &&& is_scalar(f.beta())
            &&& is_scalar(e)
            &&& e@ == enc(le_nat(spec_challenge(blinded_commitment(signer_r@, f.alpha()@, f.beta()@, signer_pk@), signer_pk@, message@))
                    + sc(f.beta()) as int)
        },
{
    if !crate::group::point_is_valid(signer_r) || !crate::group::point_is_valid(signer_pk) {
        return None;
    }
    let alpha = crate::group::random_scalar();
    let beta = crate::group::random_scalar();
    let r_prime = blind_point(signer_r, &alpha, &beta, signer_pk);
    let e_prime = hash_challenge(&r_prime, signer_pk, message);
    let e_blinded = crate::group::scalar_add(e_prime, beta);
    Some((BlindingFactors { alpha, beta }, e_blinded))
}


/// Unblinds the signer's answer: `s = s' + α`, and `e` the challenge of
/// the blinded commitment. `None` when `R` or `PK` does not decode.
pub fn unblind_signature(
    s_prime: &[u8; 32],
    factors: &BlindingFactors,
    signer_r: &[u8; 32],
    signer_pk: &[u8; 32],
    message: &[u8],
) -> (r: Option<BlindSignature>)
    requires
        is_scalar(*s_prime),
        is_scalar(factors.alpha()),
        is_scalar(factors.beta()),
        message@.len() <= u64::MAX,
    ensures
        r.is_some() == (ristretto_valid(signer_r@) && ristretto_valid(signer_pk@)),
        r.is_some() ==> {
            let sig = r.unwrap();
            &&& sig.s@ == enc(sc(*s_prime) + sc(factors.alpha()) as int)
            &&& sig.e@ == spec_challenge(blinded_commitment(signer_r@, factors.alpha()@, factors.beta()@, signer_pk@), signer_pk@, message@)
        },
{
    if !crate::group::point_is_valid(signer_r) || !crate::group::point_is_valid(signer_pk) {
        return None;
    }
    let s = crate::group::scalar_add(*s_prime, factors.alpha);
    let r_prime = blind_point(signer_r, &factors.alpha, &factors.beta, signer_pk);
    let e = hash_challenge(&r_prime, signer_pk, message);
    Some(BlindSignature { s, e })
}

/// Verifies a blind signature: recovers `R' = s·B − e·PK` and checks
/// that its challenge is `e`.
pub fn verify(pk: &[u8; 32], message: &[u8], sig: &BlindSignature) -> (ok: bool)
    requires
        message@.len() <= u64::MAX,
    ensures
        ok == signature_valid(*pk, message@, *sig),
{
    if !crate::group::point_is_valid(pk) {
        return false;
    }
    let s = match crate::group::scalar_from_canonical(sig.s) {
        Some(s) => s,
        None => return false,
    };
    let e = match crate::group::scalar_from_canonical(sig.e) {
        Some(e) => e,
        None => return false,
    };
    let sb = crate::group::basepoint_mul(s);
    let epk = crate::group::point_mul(e, *pk);
    let r_prime = crate::group::point_sub(sb, epk);
    proof {
        let l = group_order() as int;
        vstd::arithmetic::div_mod::lemma_small_mod(sc(s), group_order());
        vstd::arithmetic::div_mod::lemma_sub_mod_noop_right(sc(s) as int, sc(e) * spec_dlog(pk@), l);
    }
    let expected = hash_challenge(&r_prime, pk, message);
    crate::ct::ct_eq32(&expected, &e)
}

/// The unblinded response `s = (k + (e + β)·x) + α` satisfies
/// `s − e·x ≡ k + α + β·x (mod ℓ)`: the commitment that `s` and `e`
/// recover is the blinded one.
pub proof fn lemma_unblinded_response(x: int, kk: int, a: int, b: int, e: int, eb: int, sp: int, s: int)
    requires
        0 <= e < group_order(),
        eb == (e + b) % (group_order() as int),
        sp == (kk + (eb * x) % (group_order() as int)) % (group_order() as int),
        s == (sp + a) % (group_order() as int),
    ensures
        (s - e * x) % (group_order() as int) == (kk + a + b * x) % (group_order() as int),
{
    let l = group_order() as int;
    let q1 = (e + b) / l;
    let q2 = (eb * x) / l;
    let q3 = (kk + (eb * x) % l) / l;
    let q4 = (sp + a) / l;
    vstd::arithmetic::div_mod::lemma_fundamental_div_mod(e + b, l);
    vstd::arithmetic::div_mod::lemma_fundamental_div_mod(eb * x, l);
    vstd::arithmetic::div_mod::lemma_fundamental_div_mod(kk + (eb * x) % l, l);
    vstd::arithmetic::div_mod::lemma_fundamental_div_mod(sp + a, l);
    let m = (eb * x) % l;
    assert(eb * x == e * x + b * x - (q1 * x) * l) by (nonlinear_arith)
        requires eb == e + b - l * q1;
    assert((q4 * (-1) + q3 * (-1) + q2 * (-1) - q1 * x) * l == -(q4 * l) - q3 * l - q2 * l - (q1 * x) * l) by (nonlinear_arith);
    assert(l * q2 == q2 * l && l * q3 == q3 * l && l * q4 == q4 * l) by (nonlinear_arith);
    assert((s - e * x) - (kk + a + b * x) == (q4 * (-1) + q3 * (-1) + q2 * (-1) - q1 * x) * l);
    crate::scalar::lemma_mod_congruent(s - e * x, kk + a + b * x, q4 * (-1) + q3 * (-1) + q2 * (-1) - q1 * x, l);
}

/// A signature made by the protocol verifies: when the signer's key pair
/// holds `x` and `x·B`, its commitment is `R = k·B`, it answers the
/// blinded challenge `e` with `k + e·x`, and the requester unblinds that
/// answer with the factors that made `e`, the signature verifies on the
/// message under the signer's public key.
pub proof fn law_blind_signature_verifies(
    keys: SignerKeypair,
    k: [u8; 32],
    r: [u8; 32],
    alpha: [u8; 32],
    beta: [u8; 32],
    e_blind: [u8; 32],
    s_prime: [u8; 32],
    message: Seq<u8>,
    sig: BlindSignature,
)
    requires
        keys.wf(),
        is_scalar(k),
        encodes(r@, sc(k) as int),
        is_scalar(alpha),
        is_scalar(beta),
        e_blind@ == enc(le_nat(spec_challenge(blinded_commitment(r@, alpha@, beta@, keys.pk()@), keys.pk()@, message)) + sc(beta) as int),
        s_prime@ == enc(sc(k) + ((sc(e_blind) * sc(keys.sk())) % group_order()) as int),
        sig.s@ == enc(sc(s_prime) + sc(alpha) as int),
        sig.e@ == spec_challenge(blinded_commitment(r@, alpha@, beta@, keys.pk()@), keys.pk()@, message),
    ensures
        signature_valid(keys.pk(), message, sig),
{
    let l = group_order() as int;
    crate::scalar::lemma_group_order_fits();
    let x = sc(keys.sk()) as int;
    let kk = sc(k) as int;
    let a = sc(alpha) as int;
    let b = sc(beta) as int;
    let e = le_nat(sig.e@) as int;
    assert(e == le_nat(spec_challenge(blinded_commitment(r@, alpha@, beta@, keys.pk()@), keys.pk()@, message)));
    assert(0 <= e < l);
    let eb = sc(e_blind) as int;
    assert(eb == (e + b) % l);
    let sp = sc(s_prime) as int;
    assert(sp == (kk + (eb * x) % l) % l);
    let s = sc(sig.s) as int;
    assert(s == (sp + a) % l);
    // s − e·x ≡ k + α + β·x (mod ℓ)
    lemma_unblinded_response(x, kk, a, b, e, eb, sp, s);
    assert(spec_dlog(r@) == kk);
    assert(spec_dlog(keys.pk()@) == x);
    assert(is_scalar(sig.s) && is_scalar(sig.e));
}

} // verus!
