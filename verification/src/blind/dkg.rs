//! Distributed key generation by Feldman verifiable secret sharing: no
//! single party ever knows the group secret.
//!
//! Round 1: each participant draws a random polynomial of degree `t − 1`,
//! publishes commitments `C_k = a_k·B` to its coefficients and a Schnorr
//! proof of knowledge of `a_0`. Round 2: it sends `f(j)` to every other
//! participant `j`. Round 3: each participant checks the proofs and the
//! shares it received against the commitments, and sums its shares into
//! its key share; the group key is the sum of the `C_0`.

use vstd::prelude::*;
use vstd::string::*;
use vstd::arithmetic::power::pow;
use crate::bytes::le_nat;
use crate::hashing::spec_sha512;
use crate::scalar::{enc, sc, is_scalar, group_order};
use crate::group::{ristretto_valid, spec_basepoint_mul, spec_point_mul, spec_point_add, schnorr_holds, encodes, spec_dlog, spec_point_enc};
use crate::primitives::shamir::{Share, poly_at};
use crate::table::Table;

verus! {

broadcast use crate::scalar::lemma_enc;

/// A signer's identifier.
pub type SignerId = u64;

/// The key material of one participant after key generation.
pub struct ThresholdKeyset {
    /// The group public key.
    pub group_public: [u8; 32],
    /// Signatures need this many shares.
    pub threshold: usize,
    /// Number of participants.
    pub total: usize,
    /// Secret shares held, by participant.
    pub shares: Table<SignerId, Share>,
    /// Public key shares `y_j·B`, by participant.
    pub public_shares: Table<SignerId, [u8; 32]>,
}

/// Errors of key generation.
#[derive(Debug, PartialEq, Eq, Clone, Copy)]
pub enum DkgError {
    MissingCommitments(SignerId),
    InvalidShare { from: SignerId, to: SignerId },
    InvalidParams { threshold: usize, total: usize },
    MissingProofOfKnowledge(SignerId),
    InvalidProofOfKnowledge(SignerId),
    InvalidCommitmentLength { from: SignerId, expected: usize, got: usize },
    InvalidShareReshare,
}

/// A Schnorr proof of knowledge of the discrete log of `C_0`.
#[derive(Clone, Copy, Debug)]
pub struct ProofOfKnowledge {
    /// `R = k·B`.
    pub r: [u8; 32],
    /// `s = k + e·a_0`.
    pub s: [u8; 32],
}

/// A participant's state during key generation.
pub struct DkgParticipant {
    pub id: SignerId,
    threshold: usize,
    secret_poly: Vec<[u8; 32]>,
    commitments: Vec<[u8; 32]>,
}

/// The encoding of the identity element.
pub open spec fn identity_enc() -> Seq<u8> {
    Seq::new(32, |i: int| 0u8)
}

/// `Σ_{k < n} x^k·C_k`.
pub open spec fn poly_points(cs: Seq<[u8; 32]>, xv: int, n: int) -> Seq<u8>
    decreases n,
{
    if n <= 0 {
        identity_enc()
    } else {
        spec_point_add(poly_points(cs, xv, n - 1), spec_point_mul(enc(pow(xv, (n - 1) as nat)), cs[n - 1]@))
    }
}

/// `Σ_{k < n} x^k·d_k` where `d_k` is the discrete log of `C_k`: the
/// discrete log of `Σ x^k·C_k`.
pub open spec fn dlog_poly(cs: Seq<[u8; 32]>, xv: int, n: int) -> int
    decreases n,
{
    if n <= 0 {
        0
    } else {
        dlog_poly(cs, xv, n - 1) + spec_dlog(cs[n - 1]@) * pow(xv, (n - 1) as nat)
    }
}

/// The challenge of a proof of knowledge.
pub open spec fn pok_challenge(id: SignerId, c0: Seq<u8>, r: Seq<u8>) -> Seq<u8> {
    enc(le_nat(spec_sha512("specter-dkg-pok:".spec_bytes() + vstd::bytes::spec_u64_to_le_bytes(id) + c0 + r)) as int)
}

/// Whether `pok` proves knowledge of the discrete log of `c0` for `id`.
pub open spec fn pok_valid(id: SignerId, c0: Seq<u8>, pok: ProofOfKnowledge) -> bool {
    &&& ristretto_valid(c0)
    &&& ristretto_valid(pok.r@)
    &&& is_scalar(pok.s)
    &&& schnorr_holds(pok.r@, pok.s@, pok_challenge(id, c0, pok.r@), c0)
}

impl DkgParticipant {
    pub closed spec fn pid(&self) -> SignerId {
        self.id
    }

    pub closed spec fn t(&self) -> usize {
        self.threshold
    }

    /// The secret polynomial's coefficients, constant term first.
    pub closed spec fn poly(&self) -> Seq<[u8; 32]> {
        self.secret_poly@
    }

    /// The public commitments to the coefficients.
    pub closed spec fn comms(&self) -> Seq<[u8; 32]> {
        self.commitments@
    }

    /// `t ≥ 1` coefficients, all scalars, each committed as `a_k·B`.
    pub open spec fn wf(&self) -> bool {
        &&& self.t() >= 1
        &&& self.poly().len() == self.t()
        &&& self.comms().len() == self.t()
        &&& forall|k: int| #![trigger self.poly()[k]] #![trigger self.comms()[k]] 0 <= k < self.t() ==> is_scalar(self.poly()[k])
            && self.comms()[k]@ == spec_basepoint_mul(self.poly()[k]@) && ristretto_valid(self.comms()[k]@)
            && encodes(self.comms()[k]@, sc(self.poly()[k]) as int)
    }

    /// The public commitments.
    pub fn commitments(&self) -> (c: Vec<[u8; 32]>)
        ensures
            c@ == self.comms(),
    {
        crate::bytes::copy_vec32(&self.commitments)
    }
}

fn hash_dkg_pok(id: SignerId, commitment: &[u8; 32], r: &[u8; 32]) -> (e: [u8; 32])
    ensures
        is_scalar(e),
        e@ == pok_challenge(id, commitment@, r@),
{
    let mut buf: Vec<u8> = Vec::new();
    crate::bytes::append_bytes(&mut buf, "specter-dkg-pok:".as_bytes());
    let idb = vstd::bytes::u64_to_le_bytes(id);
    crate::bytes::append_bytes(&mut buf, idb.as_slice());
    crate::bytes::append_bytes(&mut buf, commitment);
    crate::bytes::append_bytes(&mut buf, r);
    let h = crate::hashing::sha512(buf.as_slice());
    crate::group::scalar_from_digest(&h)
}

/// `Σ x^k·C_k` for commitments `C_k`.
fn evaluate_poly_points(points: &[[u8; 32]], x: &[u8; 32]) -> (r: [u8; 32])
    requires
        is_scalar(*x),
        forall|i: int| 0 <= i < points@.len() ==> ristretto_valid((#[trigger] points@[i])@),
    ensures
        ristretto_valid(r@),
        r@ == poly_points(points@, sc(*x) as int, points@.len() as int),
        encodes(r@, dlog_poly(points@, sc(*x) as int, points@.len() as int) % (group_order() as int)),
{
    let ghost m = group_order() as int;
    let ghost xv = sc(*x) as int;
    let mut result = crate::group::identity_point();
    let mut x_power = crate::group::scalar_one();
    proof {
        vstd::arithmetic::power::lemma_pow0(xv);
        crate::scalar::lemma_group_order_fits();
        crate::scalar::lemma_scalar_is_enc(x_power);
        assert(result@ =~= identity_enc());
    }
    let mut k: usize = 0;
    while k < points.len()
        invariant
            m == group_order() as int,
            xv == sc(*x) as int,
            is_scalar(*x),
            forall|i: int| 0 <= i < points@.len() ==> ristretto_valid((#[trigger] points@[i])@),
            0 <= k <= points@.len(),
            ristretto_valid(result@),
            result@ == poly_points(points@, xv, k as int),
            encodes(result@, dlog_poly(points@, xv, k as int) % m),
            is_scalar(x_power),
            x_power@ == enc(pow(xv, k as nat)),
        decreases points@.len() - k,
    {
        let term = crate::group::point_mul(x_power, points[k]);
        proof {
            let d = spec_dlog(points@[k as int]@);
            let pw = pow(xv, k as nat);
            vstd::arithmetic::div_mod::lemma_mul_mod_noop_left(pw, d, m);
            assert(sc(x_power) == pw % m);
            assert((pw % m) * d == d * (pw % m) && pw * d == d * pw) by (nonlinear_arith);
            vstd::arithmetic::div_mod::lemma_add_mod_noop(dlog_poly(points@, xv, k as int), d * pw, m);
            vstd::arithmetic::div_mod::lemma_mod_twice(dlog_poly(points@, xv, k as int), m);
            vstd::arithmetic::div_mod::lemma_mod_twice(d * pw, m);
        }
        result = crate::group::point_add(result, term);
        let nx = crate::group::scalar_mul(x_power, *x);
        proof {
            vstd::arithmetic::div_mod::lemma_mul_mod_noop_left(pow(xv, k as nat), xv, m);
            vstd::arithmetic::power::lemma_pow_adds(xv, k as nat, 1);
            vstd::arithmetic::power::lemma_pow1(xv);
        }
        x_power = nx;
        k = k + 1;
    }
    result
}

/// Round 1: a random polynomial of degree `threshold − 1`, its
/// commitments, and a proof of knowledge of its constant term.
pub fn dkg_round1(id: SignerId, threshold: usize) -> (r: (DkgParticipant, ProofOfKnowledge))
    requires
        threshold >= 1,
    ensures
        r.0.wf(),
        r.0.pid() == id,
        r.0.t() == threshold,
        ristretto_valid(r.1.r@),
        is_scalar(r.1.s),
        exists|k: [u8; 32]| is_scalar(k) && r.1.r@ == spec_basepoint_mul(k@)
            && r.1.s@ == #[trigger] enc(sc(k) + ((le_nat(pok_challenge(id, r.0.comms()[0]@, r.1.r@)) * sc(r.0.poly()[0])) % group_order()) as int),
        pok_valid(id, r.0.comms()[0]@, r.1),
{
    let mut secret_poly: Vec<[u8; 32]> = Vec::new();
    let mut commitments: Vec<[u8; 32]> = Vec::new();
    let mut i: usize = 0;
    while i < threshold
        invariant
            0 <= i <= threshold,
            secret_poly@.len() == i,
            commitments@.len() == i,
            forall|k: int| 0 <= k < i ==> is_scalar(#[trigger] secret_poly@[k])
                && commitments@[k]@ == spec_basepoint_mul(secret_poly@[k]@) && ristretto_valid(commitments@[k]@)
                && encodes(commitments@[k]@, sc(secret_poly@[k]) as int),
        decreases threshold - i,
    {
        let a = crate::group::random_scalar();
        secret_poly.push(a);
        commitments.push(crate::group::basepoint_mul(a));
        i = i + 1;
    }
    let k = crate::group::random_scalar();
    let pok_r = crate::group::basepoint_mul(k);
    let pok_e = hash_dkg_pok(id, &commitments[0], &pok_r);
    let pok_s = crate::group::schnorr_response(k, pok_e, secret_poly[0]);
    let pok = ProofOfKnowledge { r: pok_r, s: pok_s };
    let p = DkgParticipant { id, threshold, secret_poly, commitments };
    assert(is_scalar(k) && pok.r@ == spec_basepoint_mul(k@)
        && pok.s@ == enc(sc(k) + ((le_nat(pok_challenge(id, p.comms()[0]@, pok.r@)) * sc(p.poly()[0])) % group_order()) as int));
    proof {
        crate::group::lemma_schnorr_response_holds(pok_r@, pok_s@, pok_e@, p.comms()[0]@, sc(k) as int, sc(p.poly()[0]) as int);
    }
    (p, pok)
}

/// Checks a proof of knowledge of the discrete log of `commitment_0`.
pub fn verify_pok(id: SignerId, commitment_0: &[u8; 32], pok: &ProofOfKnowledge) -> (ok: bool)
    ensures
        ok == pok_valid(id, commitment_0@, *pok),
{
    if !crate::group::point_is_valid(commitment_0) || !crate::group::point_is_valid(&pok.r) {
        return false;
    }
    match crate::group::scalar_from_canonical(pok.s) {
        None => false,
        Some(s) => {
            let e = hash_dkg_pok(id, commitment_0, &pok.r);
            crate::group::schnorr_check(pok.r, s, e, *commitment_0)
        },
    }
}

/// Round 2: the share `f(j)` for every listed participant `j` other than
/// this one.
pub fn dkg_round2(participant: &DkgParticipant, all_ids: &[SignerId]) -> (shares: Table<SignerId, [u8; 32]>)
    requires
        participant.wf(),
    ensures
        shares.wf(),
        forall|j: SignerId| #[trigger] shares@.contains_key(j) <==> (all_ids@.contains(j) && j != participant.pid()),
        forall|j: SignerId| #[trigger] shares@.contains_key(j) ==> shares@[j]@ == poly_at(participant.poly(), j as int)
            && is_scalar(shares@[j]),
{
    let mut shares: Table<SignerId, [u8; 32]> = Table::new();
    let mut i: usize = 0;
    while i < all_ids.len()
        invariant
            participant.wf(),
            0 <= i <= all_ids@.len(),
            shares.wf(),
            forall|j: SignerId| #[trigger] shares@.contains_key(j) <==> (all_ids@.take(i as int).contains(j) && j != participant.pid()),
            forall|j: SignerId| #[trigger] shares@.contains_key(j) ==> shares@[j]@ == poly_at(participant.poly(), j as int)
                && is_scalar(shares@[j]),
        decreases all_ids@.len() - i,
    {
        let target = all_ids[i];
        if target != participant.id {
            let x = crate::group::scalar_from_u64(target);
            proof {
                crate::scalar::lemma_group_order_fits();
                vstd::arithmetic::div_mod::lemma_small_mod(target as nat, group_order());
            }
            let v = crate::primitives::shamir::evaluate_polynomial(participant.secret_poly.as_slice(), &x);
            shares.insert(target, v);
        }
        proof {
            broadcast use vstd::seq_lib::group_seq_properties;
            assert(all_ids@.take(i + 1) =~= all_ids@.take(i as int).push(target));
        }
        i = i + 1;
    }
    assert(all_ids@.take(all_ids@.len() as int) =~= all_ids@);
    shares
}


/// The first failure among the proofs of knowledge, checking the
/// commitment vectors in order: a missing or an invalid proof.
pub open spec fn pok_failure(cs: Seq<(SignerId, Vec<[u8; 32]>)>, poks: Map<SignerId, ProofOfKnowledge>) -> Option<DkgError>
    decreases cs.len(),
{
    if cs.len() == 0 {
        None
    } else if !poks.contains_key(cs[0].0) {
        Some(DkgError::MissingProofOfKnowledge(cs[0].0))
    } else if !pok_valid(cs[0].0, cs[0].1@[0]@, poks[cs[0].0]) {
        Some(DkgError::InvalidProofOfKnowledge(cs[0].0))
    } else {
        pok_failure(cs.drop_first(), poks)
    }
}

/// The first failure among the received shares, in order: a sender
/// without commitments, a commitment vector of the wrong length, or a
/// share `s` with `s·B ≠ Σ x^k·C_k` (compared as encodings).
pub open spec fn share_failure(rs: Seq<(SignerId, [u8; 32])>, comms: Map<SignerId, Vec<[u8; 32]>>, me: SignerId, t: usize) -> Option<DkgError>
    decreases rs.len(),
{
    if rs.len() == 0 {
        None
    } else if !comms.contains_key(rs[0].0) {
        Some(DkgError::MissingCommitments(rs[0].0))
    } else if comms[rs[0].0]@.len() != t {
        Some(DkgError::InvalidCommitmentLength { from: rs[0].0, expected: t, got: comms[rs[0].0]@.len() as usize })
    } else if spec_point_enc(sc(rs[0].1) as int) != spec_point_enc(dlog_poly(comms[rs[0].0]@, me as int, t as int) % (group_order() as int)) {
        Some(DkgError::InvalidShare { from: rs[0].0, to: me })
    } else {
        share_failure(rs.drop_first(), comms, me, t)
    }
}

/// `Σ_{k < n}` of the received share values.
pub open spec fn sum_received(rs: Seq<(SignerId, [u8; 32])>, n: int) -> int
    decreases n,
{
    if n <= 0 { 0 } else { sum_received(rs, n - 1) + sc(rs[n - 1].1) }
}

/// `Σ_{k < n} C_{k,0}`: the group public key.
pub open spec fn sum_constant_terms(cs: Seq<(SignerId, Vec<[u8; 32]>)>, n: int) -> Seq<u8>
    decreases n,
{
    if n <= 0 { identity_enc() } else { spec_point_add(sum_constant_terms(cs, n - 1), cs[n - 1].1@[0]@) }
}

/// `Σ_{k < n}` of the committed polynomials' values at `x`, in the group:
/// a participant's public key share.
pub open spec fn sum_committed_at(cs: Seq<(SignerId, Vec<[u8; 32]>)>, xv: int, n: int) -> Seq<u8>
    decreases n,
{
    if n <= 0 {
        identity_enc()
    } else {
        spec_point_add(sum_committed_at(cs, xv, n - 1), poly_points(cs[n - 1].1@, xv, cs[n - 1].1@.len() as int))
    }
}

/// `Σ_{k < n}` of the discrete logs of the constant-term commitments.
pub open spec fn dlog_constant_terms(cs: Seq<(SignerId, Vec<[u8; 32]>)>, n: int) -> int
    decreases n,
{
    if n <= 0 { 0 } else { dlog_constant_terms(cs, n - 1) + spec_dlog(cs[n - 1].1@[0]@) }
}

/// The commitment vectors are nonempty and hold group elements.
pub open spec fn commitments_ok(cs: Seq<(SignerId, Vec<[u8; 32]>)>) -> bool {
    forall|k: int| 0 <= k < cs.len() ==> (#[trigger] cs[k]).1@.len() >= 1
        && forall|q: int| 0 <= q < cs[k].1@.len() ==> ristretto_valid((#[trigger] cs[k].1@[q])@)
}

proof fn lemma_commitment_value_ok(cs: Seq<(SignerId, Vec<[u8; 32]>)>, k: SignerId)
    requires
        crate::table::keys_unique(cs),
        commitments_ok(cs),
        crate::table::map_of(cs).contains_key(k),
    ensures
        crate::table::map_of(cs)[k]@.len() >= 1,
        forall|q: int| 0 <= q < crate::table::map_of(cs)[k]@.len() ==> ristretto_valid((#[trigger] crate::table::map_of(cs)[k]@[q])@),
{
    crate::table::lemma_map_of_dom(cs, k);
    let i = choose|i: int| crate::table::has_key_at(cs, k, i);
    crate::table::lemma_map_of_index(cs, i);
    assert(cs[i].1@.len() >= 1);
}

/// Round 3: checks the proofs of knowledge and the received shares, then
/// derives this participant's key share, the group key and the public
/// key shares.
pub fn dkg_round3(
    participant: &DkgParticipant,
    received_shares: &Table<SignerId, [u8; 32]>,
    all_commitments: &Table<SignerId, Vec<[u8; 32]>>,
    all_poks: &Table<SignerId, ProofOfKnowledge>,
) -> (r: Result<ThresholdKeyset, DkgError>)
    requires
        participant.wf(),
        received_shares.wf(),
        all_commitments.wf(),
        all_poks.wf(),
        forall|j: SignerId| #[trigger] all_commitments@.contains_key(j) ==> all_commitments@[j]@.len() >= 1
            && forall|q: int| 0 <= q < all_commitments@[j]@.len() ==> ristretto_valid((#[trigger] all_commitments@[j]@[q])@),
        forall|j: SignerId| #[trigger] received_shares@.contains_key(j) ==> is_scalar(received_shares@[j]),
    ensures
        pok_failure(all_commitments.entries(), all_poks@) is Some ==> r == Err::<ThresholdKeyset, DkgError>(pok_failure(all_commitments.entries(), all_poks@)->0),
        pok_failure(all_commitments.entries(), all_poks@) is None
            && share_failure(received_shares.entries(), all_commitments@, participant.pid(), participant.t()) is Some
            ==> r == Err::<ThresholdKeyset, DkgError>(share_failure(received_shares.entries(), all_commitments@, participant.pid(), participant.t())->0),
        pok_failure(all_commitments.entries(), all_poks@) is None
            && share_failure(received_shares.entries(), all_commitments@, participant.pid(), participant.t()) is None ==> {
            &&& r is Ok
            &&& {
                let ks = r->Ok_0;
                let cs = all_commitments.entries();
                let me = participant.pid();
                let y = enc(crate::primitives::shamir::poly_value(participant.poly(), me as int, participant.t() as int)
                    + sum_received(received_shares.entries(), received_shares.entries().len() as int));
                &&& ks.group_public@ == sum_constant_terms(cs, cs.len() as int)
                &&& encodes(ks.group_public@, dlog_constant_terms(cs, cs.len() as int) % (group_order() as int))
                &&& ks.threshold == participant.t()
                &&& ks.total == cs.len()
                &&& ks.shares.wf() && ks.public_shares.wf()
                &&& ks.shares@.dom() == set![me]
                &&& ks.shares@[me].x@ == enc(me as int)
                &&& ks.shares@[me].y@ == y
                &&& ks.public_shares@.dom() == all_commitments@.dom().insert(me)
                &&& ks.public_shares@[me]@ == spec_basepoint_mul(y)
                &&& forall|j: SignerId| #[trigger] all_commitments@.contains_key(j) && j != me
                    ==> ks.public_shares@[j]@ == sum_committed_at(cs, j as int, cs.len() as int)
            }
        },
{
    let ghost cs = all_commitments.entries();
    let ghost rs = received_shares.entries();
    let ghost me = participant.id;
    proof {
        assert forall|k: int| 0 <= k < cs.len() implies (#[trigger] cs[k]).1@.len() >= 1
            && forall|q: int| 0 <= q < cs[k].1@.len() ==> ristretto_valid((#[trigger] cs[k].1@[q])@) by {
            crate::table::lemma_map_of_index(cs, k);
            assert(all_commitments@.contains_key(cs[k].0));
        }
        assert forall|k: int| 0 <= k < rs.len() implies is_scalar(#[trigger] rs[k].1) by {
            crate::table::lemma_map_of_index(rs, k);
            assert(received_shares@.contains_key(rs[k].0));
        }
    }
    let x_i = crate::group::scalar_from_u64(participant.id);
    proof {
        crate::scalar::lemma_group_order_fits();
        vstd::arithmetic::div_mod::lemma_small_mod(participant.id as nat, group_order());
    }
    // Proofs of knowledge.
    let n = all_commitments.len();
    assert(cs.skip(0) =~= cs);
    let mut i: usize = 0;
    while i < n
        invariant
            n == cs.len(),
            cs == all_commitments.entries(),
            all_poks.wf(),
            all_commitments.wf(),
            commitments_ok(cs),
            0 <= i <= n,
            pok_failure(cs, all_poks@) == pok_failure(cs.skip(i as int), all_poks@),
        decreases n - i,
    {
        let pid = all_commitments.key_at(i);
        let comm = all_commitments.value_at(i);
        proof {
            assert(cs.skip(i as int)[0] == cs[i as int]);
            assert(cs.skip(i as int).drop_first() =~= cs.skip(i + 1));
        }
        let pok = match all_poks.get(&pid) {
            Some(p) => p,
            None => return Err(DkgError::MissingProofOfKnowledge(pid)),
        };
        if !verify_pok(pid, &comm[0], pok) {
            return Err(DkgError::InvalidProofOfKnowledge(pid));
        }
        i = i + 1;
    }
    assert(cs.skip(n as int) =~= Seq::<(SignerId, Vec<[u8; 32]>)>::empty());
    // Received shares.
    let m = received_shares.len();
    let mut total_share = crate::primitives::shamir::evaluate_polynomial(participant.secret_poly.as_slice(), &x_i);
    let ghost md = group_order() as int;
    let ghost self_val = crate::primitives::shamir::poly_value(participant.poly(), me as int, participant.t() as int);
    let mut k: usize = 0;
    assert(rs.skip(0) =~= rs);
    while k < m
        invariant
            pok_failure(cs, all_poks@) is None,
            m == rs.len(),
            rs == received_shares.entries(),
            cs == all_commitments.entries(),
            me == participant.pid(),
            md == group_order() as int,
            participant.wf(),
            received_shares.wf(),
            all_commitments.wf(),
            commitments_ok(cs),
            is_scalar(x_i),
            sc(x_i) == me,
            forall|q: int| 0 <= q < rs.len() ==> is_scalar(#[trigger] rs[q].1),
            0 <= k <= m,
            share_failure(rs, all_commitments@, me, participant.t()) == share_failure(rs.skip(k as int), all_commitments@, me, participant.t()),
            is_scalar(total_share),
            sc(total_share) == (self_val + sum_received(rs, k as int)) % md,
        decreases m - k,
    {
        let sender = received_shares.key_at(k);
        let share = *received_shares.value_at(k);
        proof {
            assert(rs.skip(k as int)[0] == rs[k as int]);
            assert(rs.skip(k as int).drop_first() =~= rs.skip(k + 1));
        }
        let sc_vec = match all_commitments.get(&sender) {
            Some(c) => c,
            None => return Err(DkgError::MissingCommitments(sender)),
        };
        if sc_vec.len() != participant.threshold {
            return Err(DkgError::InvalidCommitmentLength { from: sender, expected: participant.threshold, got: sc_vec.len() });
        }
        proof {
            lemma_commitment_value_ok(cs, sender);
        }
        let expected = evaluate_poly_points(sc_vec.as_slice(), &x_i);
        let actual = crate::group::basepoint_mul(share);
        if !crate::bytes::bytes32_eq(&actual, &expected) {
            return Err(DkgError::InvalidShare { from: sender, to: participant.id });
        }
        let next = crate::group::scalar_add(total_share, share);
        proof {
            vstd::arithmetic::div_mod::lemma_add_mod_noop(self_val + sum_received(rs, k as int), sc(share) as int, md);
            vstd::arithmetic::div_mod::lemma_small_mod(sc(share), group_order());
            vstd::arithmetic::div_mod::lemma_mod_twice(self_val + sum_received(rs, k as int), md);
        }
        total_share = next;
        k = k + 1;
    }
    assert(rs.skip(m as int) =~= Seq::<(SignerId, [u8; 32])>::empty());
    // The group public key.
    let mut group_public = crate::group::identity_point();
    proof { assert(group_public@ =~= identity_enc()); }
    let mut g: usize = 0;
    while g < n
        invariant
            n == cs.len(),
            cs == all_commitments.entries(),
            commitments_ok(cs),
            0 <= g <= n,
            ristretto_valid(group_public@),
            group_public@ == sum_constant_terms(cs, g as int),
            encodes(group_public@, dlog_constant_terms(cs, g as int) % md),
            md == group_order() as int,
        decreases n - g,
    {
        let c = all_commitments.value_at(g);
        group_public = crate::group::point_add(group_public, c[0]);
        proof {
            vstd::arithmetic::div_mod::lemma_add_mod_noop(dlog_constant_terms(cs, g as int), spec_dlog(c[0]@), md);
            vstd::arithmetic::div_mod::lemma_mod_twice(dlog_constant_terms(cs, g as int), md);
            vstd::arithmetic::div_mod::lemma_add_mod_noop(dlog_constant_terms(cs, g as int) % md, spec_dlog(c[0]@), md);
        }
        g = g + 1;
    }
    // The key shares.
    let mut shares: Table<SignerId, Share> = Table::new();
    let mut public_shares: Table<SignerId, [u8; 32]> = Table::new();
    let own_public = crate::group::basepoint_mul(total_share);
    public_shares.insert(participant.id, own_public);
    shares.insert(participant.id, Share { x: x_i, y: total_share });
    let mut o: usize = 0;
    while o < n
        invariant
            n == cs.len(),
            cs == all_commitments.entries(),
            all_commitments.wf(),
            commitments_ok(cs),
            me == participant.pid(),
            0 <= o <= n,
            public_shares.wf(),
            forall|j: SignerId| #[trigger] public_shares@.contains_key(j) <==> (j == me || exists|q: int| 0 <= q < o && cs[q].0 == j),
            public_shares@[me] == own_public,
            forall|q: int| 0 <= q < o && cs[q].0 != me ==> #[trigger] public_shares@[cs[q].0]@ == sum_committed_at(cs, cs[q].0 as int, cs.len() as int),
        decreases n - o,
    {
        let other = all_commitments.key_at(o);
        if other != participant.id {
            let x_j = crate::group::scalar_from_u64(other);
            proof {
                vstd::arithmetic::div_mod::lemma_small_mod(other as nat, group_order());
            }
            let mut pk_j = crate::group::identity_point();
            proof { assert(pk_j@ =~= identity_enc()); }
            let mut w: usize = 0;
            while w < n
                invariant
                    n == cs.len(),
                    cs == all_commitments.entries(),
                    commitments_ok(cs),
                    is_scalar(x_j),
                    sc(x_j) == other,
                    0 <= w <= n,
                    ristretto_valid(pk_j@),
                    pk_j@ == sum_committed_at(cs, other as int, w as int),
                decreases n - w,
            {
                let c = all_commitments.value_at(w);
                let v = evaluate_poly_points(c.as_slice(), &x_j);
                pk_j = crate::group::point_add(pk_j, v);
                w = w + 1;
            }
            public_shares.insert(other, pk_j);
        }
        proof {
            assert forall|j: SignerId| #[trigger] public_shares@.contains_key(j) <==> (j == me || exists|q: int| 0 <= q < o + 1 && cs[q].0 == j) by {
                if exists|q: int| 0 <= q < o + 1 && cs[q].0 == j {
                    let q = choose|q: int| 0 <= q < o + 1 && cs[q].0 == j;
                    if q < o {
                        assert(exists|q2: int| 0 <= q2 < o && cs[q2].0 == j);
                    }
                }
                if exists|q: int| 0 <= q < o && cs[q].0 == j {
                    let q = choose|q: int| 0 <= q < o && cs[q].0 == j;
                    assert(0 <= q < o + 1 && cs[q].0 == j);
                }
            }
        }
        o = o + 1;
    }
    proof {
        crate::scalar::lemma_scalar_is_enc(total_share);
        vstd::arithmetic::div_mod::lemma_mod_twice(self_val + sum_received(rs, m as int), md);
        assert(total_share@ == enc(self_val + sum_received(rs, rs.len() as int)));
        assert(shares@[me].y == total_share);
        assert(shares@[me].x == x_i);
        assert(x_i@ == enc(me as int));
        assert(shares@.dom() =~= set![participant.pid()]);
        assert forall|j: SignerId| #[trigger] public_shares@.contains_key(j) <==> all_commitments@.dom().insert(me).contains(j) by {
            crate::table::lemma_map_of_dom(cs, j);
            if exists|q: int| 0 <= q < n && cs[q].0 == j {
                let q = choose|q: int| 0 <= q < n && cs[q].0 == j;
                assert(crate::table::has_key_at(cs, j, q));
            }
            if exists|q: int| crate::table::has_key_at(cs, j, q) {
                let q = choose|q: int| crate::table::has_key_at(cs, j, q);
                assert(0 <= q < n && cs[q].0 == j);
            }
        }
        assert(public_shares@.dom() =~= all_commitments@.dom().insert(me));
        assert forall|j: SignerId| #[trigger] all_commitments@.contains_key(j) && j != me
            implies public_shares@[j]@ == sum_committed_at(cs, j as int, cs.len() as int) by {
            crate::table::lemma_map_of_dom(cs, j);
            let q = choose|q: int| crate::table::has_key_at(cs, j, q);
            assert(cs[q].0 == j);
        }
    }
    Ok(ThresholdKeyset {
        group_public,
        threshold: participant.threshold,
        total: n,
        shares,
        public_shares,
    })
}


/// Every participant's proof of knowledge is present and verifies.
pub open spec fn poks_ok(parts: Map<SignerId, DkgParticipant>, poks: Map<SignerId, ProofOfKnowledge>) -> bool {
    forall|j: SignerId| #[trigger] parts.contains_key(j) ==> poks.contains_key(j) && pok_valid(j, parts[j].comms()[0]@, poks[j])
}

proof fn lemma_no_pok_failure(cs: Seq<(SignerId, Vec<[u8; 32]>)>, poks: Map<SignerId, ProofOfKnowledge>)
    requires
        forall|k: int| 0 <= k < cs.len() ==> poks.contains_key((#[trigger] cs[k]).0)
            && pok_valid(cs[k].0, cs[k].1@[0]@, poks[cs[k].0]),
    ensures
        pok_failure(cs, poks) is None,
    decreases cs.len(),
{
    if cs.len() > 0 {
        assert(poks.contains_key(cs[0].0));
        assert forall|k: int| 0 <= k < cs.drop_first().len() implies poks.contains_key((#[trigger] cs.drop_first()[k]).0)
            && pok_valid(cs.drop_first()[k].0, cs.drop_first()[k].1@[0]@, poks[cs.drop_first()[k].0]) by {
            assert(cs.drop_first()[k] == cs[k + 1]);
        }
        lemma_no_pok_failure(cs.drop_first(), poks);
    }
}

proof fn lemma_no_share_failure(rs: Seq<(SignerId, [u8; 32])>, comms: Map<SignerId, Vec<[u8; 32]>>, me: SignerId, t: usize)
    requires
        forall|k: int| 0 <= k < rs.len() ==> comms.contains_key((#[trigger] rs[k]).0)
            && comms[rs[k].0]@.len() == t
            && sc(rs[k].1) as int == dlog_poly(comms[rs[k].0]@, me as int, t as int) % (group_order() as int),
    ensures
        share_failure(rs, comms, me, t) is None,
    decreases rs.len(),
{
    if rs.len() > 0 {
        assert(comms.contains_key(rs[0].0));
        assert forall|k: int| 0 <= k < rs.drop_first().len() implies comms.contains_key((#[trigger] rs.drop_first()[k]).0)
            && comms[rs.drop_first()[k].0]@.len() == t
            && sc(rs.drop_first()[k].1) as int == dlog_poly(comms[rs.drop_first()[k].0]@, me as int, t as int) % (group_order() as int) by {
            assert(rs.drop_first()[k] == rs[k + 1]);
        }
        lemma_no_share_failure(rs.drop_first(), comms, me, t);
    }
}

/// Committing to the coefficients turns the polynomial's value into the
/// discrete log of the committed sum.
proof fn lemma_dlog_poly_value(cs: Seq<[u8; 32]>, poly: Seq<[u8; 32]>, xv: int, n: int)
    requires
        n <= cs.len(),
        n <= poly.len(),
        forall|k: int| 0 <= k < n ==> spec_dlog((#[trigger] cs[k])@) == sc(poly[k]),
    ensures
        dlog_poly(cs, xv, n) == crate::primitives::shamir::poly_value(poly, xv, n),
    decreases n,
{
    if n > 0 {
        lemma_dlog_poly_value(cs, poly, xv, n - 1);
        assert(spec_dlog(cs[n - 1]@) == sc(poly[n - 1]));
    }
}

/// A participant's share for `x` passes the check against its commitments.
proof fn lemma_honest_share(p: DkgParticipant, v: [u8; 32], xv: int)
    requires
        p.wf(),
        v@ == crate::primitives::shamir::poly_at(p.poly(), xv),
    ensures
        sc(v) as int == dlog_poly(p.comms(), xv, p.t() as int) % (group_order() as int),
{
    assert forall|k: int| 0 <= k < p.t() implies spec_dlog((#[trigger] p.comms()[k])@) == sc(p.poly()[k]) by {
        assert(encodes(p.comms()[k]@, sc(p.poly()[k]) as int));
    }
    lemma_dlog_poly_value(p.comms(), p.poly(), xv, p.t() as int);
    crate::scalar::lemma_enc(crate::primitives::shamir::poly_value(p.poly(), xv, p.poly().len() as int));
}

/// `Σ_{k < n} f_k(x)`: the joint polynomial `F = Σ f_k` at `x`.
pub open spec fn joint_value(fs: Seq<Seq<[u8; 32]>>, xv: int, n: int) -> int
    decreases n,
{
    if n <= 0 { 0 } else { joint_value(fs, xv, n - 1) + crate::primitives::shamir::poly_value(fs[n - 1], xv, fs[n - 1].len() as int) }
}

/// `Σ_{k < n, keys[k] ≠ target} (f_k(target) mod ℓ)`: what `target` receives
/// from the others.
pub open spec fn others_sum(fs: Seq<Seq<[u8; 32]>>, keys: Seq<SignerId>, target: SignerId, n: int) -> int
    decreases n,
{
    if n <= 0 {
        0
    } else {
        others_sum(fs, keys, target, n - 1) + (if keys[n - 1] == target { 0 } else {
            crate::primitives::shamir::poly_value(fs[n - 1], target as int, fs[n - 1].len() as int) % (group_order() as int)
        })
    }
}

/// The outcome of key generation: each key share is the value at its
/// holder's point of one joint polynomial `F = Σ f_k` whose summands have
/// `t` scalar coefficients, and every group key is `F(0)·B`.
pub open spec fn dkg_outcome(ks: Map<SignerId, ThresholdKeyset>, fs: Seq<Seq<[u8; 32]>>, t: usize) -> bool {
    &&& forall|k: int| 0 <= k < fs.len() ==> (#[trigger] fs[k]).len() == t
        && forall|c: int| 0 <= c < t ==> is_scalar(#[trigger] fs[k][c])
    &&& forall|a: SignerId| #[trigger] ks.contains_key(a)
        ==> sc(ks[a].shares@[a].y) == joint_value(fs, a as int, fs.len() as int) % (group_order() as int)
        && encodes(ks[a].group_public@, joint_value(fs, 0, fs.len() as int) % (group_order() as int))
}

proof fn lemma_mod_add_cong(a: int, b: int, y: int, m: int)
    requires
        m > 0,
        a % m == b % m,
    ensures
        (a + y % m) % m == (b + y) % m,
        (a + y) % m == (b + y) % m,
{
    vstd::arithmetic::div_mod::lemma_add_mod_noop(a, y % m, m);
    vstd::arithmetic::div_mod::lemma_mod_twice(y, m);
    vstd::arithmetic::div_mod::lemma_add_mod_noop(b, y, m);
    vstd::arithmetic::div_mod::lemma_add_mod_noop(a, y, m);
}

proof fn lemma_others_without(fs: Seq<Seq<[u8; 32]>>, keys: Seq<SignerId>, target: SignerId, n: int)
    requires
        0 <= n <= keys.len(),
        n <= fs.len(),
        forall|k: int| 0 <= k < n ==> keys[k] != target,
    ensures
        others_sum(fs, keys, target, n) % (group_order() as int) == joint_value(fs, target as int, n) % (group_order() as int),
    decreases n,
{
    if n > 0 {
        lemma_others_without(fs, keys, target, n - 1);
        lemma_mod_add_cong(others_sum(fs, keys, target, n - 1), joint_value(fs, target as int, n - 1),
            crate::primitives::shamir::poly_value(fs[n - 1], target as int, fs[n - 1].len() as int), group_order() as int);
    }
}

/// What a participant receives from the others plus its own value is the
/// joint polynomial at its point, modulo ℓ.
proof fn lemma_others_sum(fs: Seq<Seq<[u8; 32]>>, keys: Seq<SignerId>, target: SignerId, i: int, n: int)
    requires
        0 <= i < n <= keys.len(),
        n <= fs.len(),
        keys[i] == target,
        forall|a: int, b: int| 0 <= a < b < n ==> keys[a] != keys[b],
    ensures
        (others_sum(fs, keys, target, n) + crate::primitives::shamir::poly_value(fs[i], target as int, fs[i].len() as int)) % (group_order() as int)
            == joint_value(fs, target as int, n) % (group_order() as int),
    decreases n,
{
    let m = group_order() as int;
    let own = crate::primitives::shamir::poly_value(fs[i], target as int, fs[i].len() as int);
    if n - 1 == i {
        assert forall|k: int| 0 <= k < n - 1 implies keys[k] != target by {
            assert(keys[k] != keys[i]);
        }
        lemma_others_without(fs, keys, target, n - 1);
        lemma_mod_add_cong(others_sum(fs, keys, target, n - 1), joint_value(fs, target as int, n - 1), own, m);
    } else {
        lemma_others_sum(fs, keys, target, i, n - 1);
        assert(keys[n - 1] != keys[i]);
        let y = crate::primitives::shamir::poly_value(fs[n - 1], target as int, fs[n - 1].len() as int);
        lemma_mod_add_cong(others_sum(fs, keys, target, n - 1) + own, joint_value(fs, target as int, n - 1), y, m);
        assert(others_sum(fs, keys, target, n) + own == others_sum(fs, keys, target, n - 1) + own + y % m);
    }
}

/// A polynomial's value at 0 is its constant term.
proof fn lemma_poly_at_zero(f: Seq<[u8; 32]>, n: int)
    requires
        1 <= n <= f.len(),
    ensures
        crate::primitives::shamir::poly_value(f, 0, n) == sc(f[0]),
    decreases n,
{
    if n > 1 {
        lemma_poly_at_zero(f, n - 1);
        reveal(pow);
        assert(pow(0, (n - 1) as nat) == 0 * pow(0, (n - 2) as nat));
    } else {
        vstd::arithmetic::power::lemma_pow0(0int);
        assert(crate::primitives::shamir::poly_value(f, 0, 0) == 0);
    }
}

proof fn lemma_constant_terms(cs: Seq<(SignerId, Vec<[u8; 32]>)>, fs: Seq<Seq<[u8; 32]>>, n: int)
    requires
        0 <= n <= cs.len(),
        n <= fs.len(),
        forall|k: int| 0 <= k < n ==> (#[trigger] fs[k]).len() >= 1 && spec_dlog(cs[k].1@[0]@) == sc(fs[k][0]),
    ensures
        dlog_constant_terms(cs, n) == joint_value(fs, 0, n),
    decreases n,
{
    if n > 0 {
        lemma_constant_terms(cs, fs, n - 1);
        assert(fs[n - 1].len() >= 1);
        lemma_poly_at_zero(fs[n - 1], fs[n - 1].len() as int);
    }
}

/// Appending an entry leaves the sum over the first `n` entries.
proof fn lemma_sum_received_push(rs: Seq<(SignerId, [u8; 32])>, x: (SignerId, [u8; 32]), n: int)
    requires
        0 <= n <= rs.len(),
    ensures
        sum_received(rs.push(x), n) == sum_received(rs, n),
    decreases n,
{
    if n > 0 {
        lemma_sum_received_push(rs, x, n - 1);
        assert(rs.push(x)[n - 1] == rs[n - 1]);
    }
}

/// Runs the three rounds among all participants and gives each one's
/// keyset. Every participant receives the same group key: each key share
/// is the value at its holder's point of one joint polynomial `F`, and the
/// group key is `F(0)·B`.
pub fn run_dkg(threshold: usize, participant_ids: &[SignerId]) -> (r: Result<Table<SignerId, ThresholdKeyset>, DkgError>)
    ensures
        (threshold > participant_ids@.len() || threshold == 0 || participant_ids@.len() == 0)
            ==> r == Err::<Table<SignerId, ThresholdKeyset>, DkgError>(DkgError::InvalidParams { threshold, total: participant_ids@.len() as usize }),
        !(threshold > participant_ids@.len() || threshold == 0 || participant_ids@.len() == 0) ==> r is Ok,
        r is Ok ==> {
            let ks = r->Ok_0;
            &&& ks.wf()
            &&& forall|j: SignerId| #[trigger] ks@.contains_key(j) <==> participant_ids@.contains(j)
            &&& forall|a: SignerId, b: SignerId| #[trigger] ks@.contains_key(a) && #[trigger] ks@.contains_key(b)
                ==> ks@[a].group_public@ == ks@[b].group_public@
            &&& forall|a: SignerId| #[trigger] ks@.contains_key(a) ==> ks@[a].threshold == threshold
            &&& forall|a: SignerId| #[trigger] ks@.contains_key(a) ==> ks@[a].shares@.dom() == set![a]
                && ks@[a].shares@[a].x@ == enc(a as int)
                && ks@[a].public_shares@.dom() == ks@.dom()
                && ks@[a].public_shares@[a]@ == spec_basepoint_mul(ks@[a].shares@[a].y@)
            &&& forall|a: SignerId, b: SignerId, k: SignerId|
                #![trigger ks@[a].public_shares@[k], ks@[b].public_shares@[k]]
                ks@.contains_key(a) && ks@.contains_key(b) && ks@.contains_key(k) && k != a && k != b
                ==> ks@[a].public_shares@[k]@ == ks@[b].public_shares@[k]@
            &&& exists|fs: Seq<Seq<[u8; 32]>>| fs.len() == ks@.dom().len() && #[trigger] dkg_outcome(ks@, fs, threshold)
        },
{
    let total = participant_ids.len();
    if threshold > total || threshold == 0 || total == 0 {
        return Err(DkgError::InvalidParams { threshold, total });
    }
    let ghost ids = participant_ids@;
    // Round 1.
    let mut participants: Table<SignerId, DkgParticipant> = Table::new();
    let mut all_poks: Table<SignerId, ProofOfKnowledge> = Table::new();
    let mut i: usize = 0;
    while i < total
        invariant
            ids == participant_ids@,
            total == ids.len(),
            threshold >= 1,
            0 <= i <= total,
            participants.wf(),
            all_poks.wf(),
            forall|j: SignerId| #[trigger] participants@.contains_key(j) <==> ids.take(i as int).contains(j),
            forall|j: SignerId| #[trigger] participants@.contains_key(j) ==> participants@[j].wf()
                && participants@[j].t() == threshold && participants@[j].pid() == j,
            poks_ok(participants@, all_poks@),
        decreases total - i,
    {
        let id = participant_ids[i];
        let (p, pok) = dkg_round1(id, threshold);
        participants.insert(id, p);
        all_poks.insert(id, pok);
        proof {
            broadcast use vstd::seq_lib::group_seq_properties;
            assert(ids.take(i + 1) =~= ids.take(i as int).push(id));
        }
        i = i + 1;
    }
    proof { assert(ids.take(total as int) =~= ids); }
    let np = participants.len();
    let ghost ps = participants.entries();
    // The commitments everyone publishes.
    let mut all_commitments: Table<SignerId, Vec<[u8; 32]>> = Table::new();
    let mut q: usize = 0;
    while q < np
        invariant
            np == ps.len(),
            ps == participants.entries(),
            participants.wf(),
            threshold >= 1,
            forall|j: SignerId| #[trigger] participants@.contains_key(j) ==> participants@[j].wf()
                && participants@[j].t() == threshold && participants@[j].pid() == j,
            0 <= q <= np,
            all_commitments.wf(),
            forall|j: SignerId| #[trigger] all_commitments@.contains_key(j) <==> exists|w: int| 0 <= w < q && ps[w].0 == j,
            forall|j: SignerId| #[trigger] all_commitments@.contains_key(j) ==> participants@.contains_key(j)
                && all_commitments@[j]@ == participants@[j].comms(),
            poks_ok(participants@, all_poks@),
            all_commitments.entries().len() == q,
            forall|k: int| 0 <= k < q ==> (#[trigger] all_commitments.entries()[k]).0 == ps[k].0,
        decreases np - q,
    {
        let id = participants.key_at(q);
        let p = participants.value_at(q);
        proof {
            crate::table::lemma_map_of_index(ps, q as int);
            if all_commitments@.contains_key(id) {
                let w = choose|w: int| 0 <= w < q && ps[w].0 == id;
                assert(ps[w].0 != ps[q as int].0);
            }
        }
        let c = p.commitments();
        all_commitments.insert(id, c);
        proof {
            assert forall|j: SignerId| #[trigger] all_commitments@.contains_key(j) <==> exists|w: int| 0 <= w < q + 1 && ps[w].0 == j by {
                if exists|w: int| 0 <= w < q + 1 && ps[w].0 == j {
                    let w = choose|w: int| 0 <= w < q + 1 && ps[w].0 == j;
                    if w < q {
                        assert(exists|w2: int| 0 <= w2 < q && ps[w2].0 == j);
                    }
                }
                if exists|w: int| 0 <= w < q && ps[w].0 == j {
                    let w = choose|w: int| 0 <= w < q && ps[w].0 == j;
                    assert(0 <= w < q + 1 && ps[w].0 == j);
                }
            }
        }
        q = q + 1;
    }
    proof {
        assert forall|j: SignerId| #[trigger] all_commitments@.contains_key(j) <==> participants@.contains_key(j) by {
            crate::table::lemma_map_of_dom(ps, j);
            if exists|w: int| crate::table::has_key_at(ps, j, w) {
                let w = choose|w: int| crate::table::has_key_at(ps, j, w);
                assert(0 <= w < np && ps[w].0 == j);
            }
            if exists|w: int| 0 <= w < np && ps[w].0 == j {
                let w = choose|w: int| 0 <= w < np && ps[w].0 == j;
                assert(crate::table::has_key_at(ps, j, w));
            }
        }
    }
    let ghost cs = all_commitments.entries();
    let ghost pkeys = ps.map_values(|e: (SignerId, DkgParticipant)| e.0);
    let ghost fs = Seq::new(np as nat, |k: int| participants@[ps[k].0].poly());
    proof {
        assert forall|j: SignerId| #[trigger] all_commitments@.contains_key(j) implies all_commitments@[j]@.len() == threshold by {
            assert(participants@[j].wf());
        }
        assert(cs.len() == np);
        assert forall|k: int| 0 <= k < np implies participants@.contains_key(#[trigger] ps[k].0) by {
            crate::table::lemma_map_of_index(ps, k);
        }
        assert forall|k: int| 0 <= k < np implies (#[trigger] cs[k]).0 == ps[k].0 && cs[k].1@ == participants@[ps[k].0].comms() by {
            crate::table::lemma_map_of_index(cs, k);
            assert(all_commitments.entries()[k].0 == ps[k].0);
            assert(all_commitments@.contains_key(cs[k].0));
        }
        assert forall|k: int| 0 <= k < np implies #[trigger] pkeys[k] == ps[k].0 && fs[k] == participants@[ps[k].0].poly() by {}
        assert forall|x: int, y: int| 0 <= x < y < np implies pkeys[x] != pkeys[y] by {
            assert(ps[x].0 != ps[y].0);
        }
        assert forall|k: int| 0 <= k < np implies (#[trigger] fs[k]).len() >= 1 && spec_dlog(cs[k].1@[0]@) == sc(fs[k][0]) by {
            assert(cs[k].0 == ps[k].0);
            assert(participants@.contains_key(ps[k].0));
            let pp = participants@[ps[k].0];
            assert(pp.wf());
            assert(encodes(pp.comms()[0]@, sc(pp.poly()[0]) as int));
        }
        lemma_constant_terms(cs, fs, np as int);
    }
    let nc = all_commitments.len();
    // Every commitment vector has the threshold's length.
    let mut c: usize = 0;
    while c < nc
        invariant
            total == participant_ids@.len(),
            1 <= threshold <= total,
            nc == cs.len(),
            cs == all_commitments.entries(),
            0 <= c <= nc,
            all_commitments.wf(),
            forall|j: SignerId| #[trigger] all_commitments@.contains_key(j) ==> all_commitments@[j]@.len() == threshold,
        decreases nc - c,
    {
        let v = all_commitments.value_at(c);
        proof {
            crate::table::lemma_map_of_index(cs, c as int);
            assert(all_commitments@.contains_key(cs[c as int].0));
            assert(v@.len() == threshold);
        }
        if v.len() != threshold {
            return Err(DkgError::InvalidCommitmentLength { from: all_commitments.key_at(c), expected: threshold, got: v.len() });
        }
        c = c + 1;
    }
    // Round 2.
    let mut all_shares: Table<SignerId, Table<SignerId, [u8; 32]>> = Table::new();
    let mut w: usize = 0;
    while w < np
        invariant
            ids == participant_ids@,
            np == ps.len(),
            ps == participants.entries(),
            participants.wf(),
            forall|j: SignerId| #[trigger] participants@.contains_key(j) ==> participants@[j].wf()
                && participants@[j].t() == threshold && participants@[j].pid() == j,
            0 <= w <= np,
            all_shares.wf(),
            forall|j: SignerId| #[trigger] all_shares@.contains_key(j) ==> participants@.contains_key(j)
                && all_shares@[j].wf()
                && (forall|t: SignerId| #[trigger] all_shares@[j]@.contains_key(t) <==> (ids.contains(t) && t != j))
                && (forall|t: SignerId| #[trigger] all_shares@[j]@.contains_key(t) ==> is_scalar(all_shares@[j]@[t])),
            forall|j: SignerId, t: SignerId| #[trigger] all_shares@.contains_key(j) && #[trigger] all_shares@[j]@.contains_key(t)
                ==> all_shares@[j]@[t]@ == crate::primitives::shamir::poly_at(participants@[j].poly(), t as int),
            forall|w2: int| 0 <= w2 < w ==> #[trigger] all_shares@.contains_key(ps[w2].0),
            poks_ok(participants@, all_poks@),
            all_poks.wf(),
            all_commitments.wf(),
            forall|j: SignerId| #[trigger] all_commitments@.contains_key(j) <==> participants@.contains_key(j),
            forall|j: SignerId| #[trigger] all_commitments@.contains_key(j) ==> all_commitments@[j]@ == participants@[j].comms(),
        decreases np - w,
    {
        let id = participants.key_at(w);
        let p = participants.value_at(w);
        proof {
            crate::table::lemma_map_of_index(ps, w as int);
            assert(participants@.contains_key(id));
        }
        let sh = dkg_round2(p, participant_ids);
        all_shares.insert(id, sh);
        w = w + 1;
    }
    proof {
        assert forall|j: SignerId| #[trigger] participants@.contains_key(j) implies all_shares@.contains_key(j) by {
            crate::table::lemma_map_of_dom(ps, j);
            let w2 = choose|w2: int| crate::table::has_key_at(ps, j, w2);
            assert(all_shares@.contains_key(ps[w2].0));
        }
    }
    // The shares each participant receives.
    let mut received: Table<SignerId, Table<SignerId, [u8; 32]>> = Table::new();
    let mut a: usize = 0;
    while a < total
        invariant
            ids == participant_ids@,
            total == ids.len(),
            forall|j: SignerId| #[trigger] participants@.contains_key(j) <==> ids.contains(j),
            forall|j: SignerId| #[trigger] participants@.contains_key(j) ==> all_shares@.contains_key(j),
            all_shares.wf(),
            forall|j: SignerId| #[trigger] all_shares@.contains_key(j) ==> participants@.contains_key(j)
                && all_shares@[j].wf()
                && (forall|t: SignerId| #[trigger] all_shares@[j]@.contains_key(t) <==> (ids.contains(t) && t != j))
                && (forall|t: SignerId| #[trigger] all_shares@[j]@.contains_key(t) ==> is_scalar(all_shares@[j]@[t])),
            0 <= a <= total,
            received.wf(),
            forall|j: SignerId| #[trigger] received@.contains_key(j) <==> ids.take(a as int).contains(j),
            forall|j: SignerId| #[trigger] received@.contains_key(j) ==> received@[j].wf()
                && forall|s: SignerId| #[trigger] received@[j]@.contains_key(s) ==> is_scalar(received@[j]@[s]),
            forall|j: SignerId, t: SignerId| #[trigger] all_shares@.contains_key(j) && #[trigger] all_shares@[j]@.contains_key(t)
                ==> all_shares@[j]@[t]@ == crate::primitives::shamir::poly_at(participants@[j].poly(), t as int),
            forall|j: SignerId, s: SignerId| #[trigger] received@.contains_key(j) && #[trigger] received@[j]@.contains_key(s)
                ==> participants@.contains_key(s) && received@[j]@[s]@ == crate::primitives::shamir::poly_at(participants@[s].poly(), j as int),
            participants.wf(),
            forall|j: SignerId| #[trigger] participants@.contains_key(j) ==> participants@[j].wf()
                && participants@[j].t() == threshold && participants@[j].pid() == j,
            all_poks.wf(),
            all_commitments.wf(),
            poks_ok(participants@, all_poks@),
            forall|j: SignerId| #[trigger] all_commitments@.contains_key(j) <==> participants@.contains_key(j),
            forall|j: SignerId| #[trigger] all_commitments@.contains_key(j) ==> all_commitments@[j]@ == participants@[j].comms(),
            np == ps.len(),
            ps == participants.entries(),
            pkeys.len() == np,
            fs.len() == np,
            forall|k: int| 0 <= k < np ==> #[trigger] pkeys[k] == ps[k].0 && participants@.contains_key(ps[k].0)
                && fs[k] == participants@[ps[k].0].poly(),
            forall|j: SignerId| #[trigger] received@.contains_key(j)
                ==> sum_received(received@[j].entries(), received@[j].entries().len() as int) == others_sum(fs, pkeys, j, np as int),
        decreases total - a,
    {
        let target = participant_ids[a];
        let mut for_target: Table<SignerId, [u8; 32]> = Table::new();
        let mut b: usize = 0;
        proof {
            assert forall|k: int| 0 <= k < np implies #[trigger] pkeys[k] == ps[k].0 && participants@.contains_key(ps[k].0)
                && fs[k] == participants@[ps[k].0].poly() by {
                assert(pkeys[k] == ps[k].0);
            }
            assert(sum_received(for_target.entries(), 0) == others_sum(fs, pkeys, target, 0));
        }
        while b < np
            invariant
                np == ps.len(),
                ps == participants.entries(),
                pkeys.len() == np,
                fs.len() == np,
                forall|k: int| 0 <= k < np ==> #[trigger] pkeys[k] == ps[k].0 && participants@.contains_key(ps[k].0)
                    && fs[k] == participants@[ps[k].0].poly(),
                participants.wf(),
                forall|s: SignerId| #[trigger] for_target@.contains_key(s) ==> exists|k: int| 0 <= k < b && ps[k].0 == s,
                sum_received(for_target.entries(), for_target.entries().len() as int) == others_sum(fs, pkeys, target, b as int),
                ids == participant_ids@,
                total == ids.len(),
                0 <= a < total,
                target == ids[a as int],
                forall|j: SignerId| #[trigger] participants@.contains_key(j) <==> ids.contains(j),
                forall|j: SignerId| #[trigger] participants@.contains_key(j) ==> all_shares@.contains_key(j),
                all_shares.wf(),
                forall|j: SignerId| #[trigger] all_shares@.contains_key(j) ==> participants@.contains_key(j)
                    && all_shares@[j].wf()
                    && (forall|t: SignerId| #[trigger] all_shares@[j]@.contains_key(t) <==> (ids.contains(t) && t != j))
                    && (forall|t: SignerId| #[trigger] all_shares@[j]@.contains_key(t) ==> is_scalar(all_shares@[j]@[t])),
                0 <= b <= np,
                for_target.wf(),
                forall|s: SignerId| #[trigger] for_target@.contains_key(s) ==> is_scalar(for_target@[s]),
                forall|j: SignerId, t: SignerId| #[trigger] all_shares@.contains_key(j) && #[trigger] all_shares@[j]@.contains_key(t)
                    ==> all_shares@[j]@[t]@ == crate::primitives::shamir::poly_at(participants@[j].poly(), t as int),
                forall|s: SignerId| #[trigger] for_target@.contains_key(s)
                    ==> participants@.contains_key(s) && for_target@[s]@ == crate::primitives::shamir::poly_at(participants@[s].poly(), target as int),
            decreases np - b,
        {
            let sender = participants.key_at(b);
            proof {
                crate::table::lemma_map_of_index(ps, b as int);
                assert(pkeys[b as int] == ps[b as int].0);
            }
            if sender != target {
                proof {
                    assert(participants@.contains_key(sender));
                    assert(ids.contains(sender));
                    assert(ids.contains(target));
                    if for_target@.contains_key(sender) {
                        let k = choose|k: int| 0 <= k < b && ps[k].0 == sender;
                        assert(ps[k].0 != ps[b as int].0);
                    }
                }
                let from_sender = match all_shares.get(&sender) {
                    Some(t) => t,
                    None => { assert(false); b = b + 1; continue; },
                };
                match from_sender.get(&target) {
                    Some(v) => {
                        let ghost old_e = for_target.entries();
                        for_target.insert(sender, *v);
                        proof {
                            lemma_sum_received_push(old_e, (sender, *v), old_e.len() as int);
                            assert(for_target.entries()[old_e.len() as int] == (sender, *v));
                            assert(v@ == crate::primitives::shamir::poly_at(fs[b as int], target as int));
                        }
                    },
                    None => { assert(false); },
                }
            }
            proof {
                assert forall|s2: SignerId| #[trigger] for_target@.contains_key(s2) implies exists|k: int| 0 <= k < b + 1 && ps[k].0 == s2 by {
                    if s2 != sender || sender == target {
                        let k = choose|k: int| 0 <= k < b && ps[k].0 == s2;
                        assert(0 <= k < b + 1 && ps[k].0 == s2);
                    } else {
                        assert(0 <= b < b + 1 && ps[b as int].0 == s2);
                    }
                }
            }
            b = b + 1;
        }
        received.insert(target, for_target);
        proof {
            broadcast use vstd::seq_lib::group_seq_properties;
            assert(ids.take(a + 1) =~= ids.take(a as int).push(target));
        }
        a = a + 1;
    }
    proof { assert(ids.take(total as int) =~= ids); }
    // Round 3.
    let ghost gpk = sum_constant_terms(cs, cs.len() as int);
    let mut keysets: Table<SignerId, ThresholdKeyset> = Table::new();
    let mut z: usize = 0;
    while z < np
        invariant
            total == participant_ids@.len(),
            1 <= threshold <= total,
            ids == participant_ids@,
            np == ps.len(),
            ps == participants.entries(),
            cs == all_commitments.entries(),
            gpk == sum_constant_terms(cs, cs.len() as int),
            participants.wf(),
            all_commitments.wf(),
            all_poks.wf(),
            received.wf(),
            forall|j: SignerId| #[trigger] participants@.contains_key(j) <==> ids.contains(j),
            forall|j: SignerId| #[trigger] participants@.contains_key(j) ==> participants@[j].wf()
                && participants@[j].t() == threshold && participants@[j].pid() == j,
            forall|j: SignerId| #[trigger] all_commitments@.contains_key(j) ==> participants@.contains_key(j)
                && all_commitments@[j]@ == participants@[j].comms(),
            forall|j: SignerId| #[trigger] received@.contains_key(j) <==> ids.contains(j),
            forall|j: SignerId| #[trigger] received@.contains_key(j) ==> received@[j].wf()
                && forall|s: SignerId| #[trigger] received@[j]@.contains_key(s) ==> is_scalar(received@[j]@[s]),
            forall|j: SignerId, s: SignerId| #[trigger] received@.contains_key(j) && #[trigger] received@[j]@.contains_key(s)
                ==> participants@.contains_key(s) && received@[j]@[s]@ == crate::primitives::shamir::poly_at(participants@[s].poly(), j as int),
            poks_ok(participants@, all_poks@),
            forall|j: SignerId| #[trigger] all_commitments@.contains_key(j) <==> participants@.contains_key(j),
            0 <= z <= np,
            keysets.wf(),
            forall|j: SignerId| #[trigger] keysets@.contains_key(j) <==> exists|w2: int| 0 <= w2 < z && ps[w2].0 == j,
            np == pkeys.len(),
            fs.len() == np,
            forall|k: int| 0 <= k < np ==> #[trigger] pkeys[k] == ps[k].0 && fs[k] == participants@[ps[k].0].poly(),
            forall|x: int, y: int| 0 <= x < y < np ==> pkeys[x] != pkeys[y],
            cs.len() == np,
            dlog_constant_terms(cs, np as int) == joint_value(fs, 0, np as int),
            forall|j: SignerId| #[trigger] received@.contains_key(j)
                ==> sum_received(received@[j].entries(), received@[j].entries().len() as int) == others_sum(fs, pkeys, j, np as int),
            forall|j: SignerId| #[trigger] keysets@.contains_key(j)
                ==> sc(keysets@[j].shares@[j].y) == joint_value(fs, j as int, np as int) % (group_order() as int)
                && encodes(keysets@[j].group_public@, joint_value(fs, 0, np as int) % (group_order() as int)),
            forall|j: SignerId| #[trigger] keysets@.contains_key(j) ==> keysets@[j].group_public@ == gpk
                && keysets@[j].threshold == threshold
                && keysets@[j].shares@.dom() == set![j]
                && keysets@[j].shares@[j].x@ == enc(j as int)
                && keysets@[j].public_shares@.dom() == all_commitments@.dom()
                && keysets@[j].public_shares@[j]@ == spec_basepoint_mul(keysets@[j].shares@[j].y@)
                && (forall|k: SignerId| #[trigger] all_commitments@.contains_key(k) && k != j
                    ==> keysets@[j].public_shares@[k]@ == sum_committed_at(cs, k as int, cs.len() as int)),
        decreases np - z,
    {
        let id = participants.key_at(z);
        let p = participants.value_at(z);
        proof {
            crate::table::lemma_map_of_index(ps, z as int);
            assert(participants@.contains_key(id));
            assert(received@.contains_key(id));
            assert forall|j: SignerId| #[trigger] all_commitments@.contains_key(j) implies all_commitments@[j]@.len() >= 1
                && forall|qq: int| 0 <= qq < all_commitments@[j]@.len() ==> ristretto_valid((#[trigger] all_commitments@[j]@[qq])@) by {
                assert(participants@[j].wf());
            }
        }
        let rec = match received.get(&id) {
            Some(r) => r,
            None => { assert(false); return Err(DkgError::MissingCommitments(id)); },
        };
        proof {
            assert forall|k: int| 0 <= k < cs.len() implies all_poks@.contains_key((#[trigger] cs[k]).0)
                && pok_valid(cs[k].0, cs[k].1@[0]@, all_poks@[cs[k].0]) by {
                crate::table::lemma_map_of_index(cs, k);
                assert(all_commitments@.contains_key(cs[k].0));
                assert(participants@.contains_key(cs[k].0));
            }
            lemma_no_pok_failure(cs, all_poks@);
            let rsq = rec.entries();
            assert forall|k: int| 0 <= k < rsq.len() implies all_commitments@.contains_key((#[trigger] rsq[k]).0)
                && all_commitments@[rsq[k].0]@.len() == threshold
                && sc(rsq[k].1) as int == dlog_poly(all_commitments@[rsq[k].0]@, id as int, threshold as int) % (group_order() as int) by {
                crate::table::lemma_map_of_index(rsq, k);
                let s = rsq[k].0;
                assert(rec@.contains_key(s));
                assert(received@[id]@.contains_key(s));
                assert(participants@.contains_key(s));
                assert(all_commitments@.contains_key(s));
                lemma_honest_share(participants@[s], rsq[k].1, id as int);
            }
            lemma_no_share_failure(rsq, all_commitments@, id, threshold);
        }
        let ks = match dkg_round3(p, rec, &all_commitments, &all_poks) {
            Ok(k) => k,
            Err(e) => return Err(e),
        };
        proof {
            assert(all_commitments@.contains_key(id));
            assert(all_commitments@.dom().insert(id) =~= all_commitments@.dom());
            assert(pkeys[z as int] == id);
            assert(fs[z as int] == p.poly());
            lemma_others_sum(fs, pkeys, id, z as int, np as int);
            assert(sc(ks.shares@[id].y) == joint_value(fs, id as int, np as int) % (group_order() as int));
        }
        keysets.insert(id, ks);
        proof {
            assert forall|j: SignerId| #[trigger] keysets@.contains_key(j) <==> exists|w2: int| 0 <= w2 < z + 1 && ps[w2].0 == j by {
                if exists|w2: int| 0 <= w2 < z + 1 && ps[w2].0 == j {
                    let w2 = choose|w2: int| 0 <= w2 < z + 1 && ps[w2].0 == j;
                    if w2 < z {
                        assert(exists|w3: int| 0 <= w3 < z && ps[w3].0 == j);
                    }
                }
                if exists|w2: int| 0 <= w2 < z && ps[w2].0 == j {
                    let w2 = choose|w2: int| 0 <= w2 < z && ps[w2].0 == j;
                    assert(0 <= w2 < z + 1 && ps[w2].0 == j);
                }
            }
        }
        z = z + 1;
    }
    proof {
        assert forall|j: SignerId| #[trigger] all_commitments@.contains_key(j) <==> keysets@.contains_key(j) by {
            crate::table::lemma_map_of_dom(ps, j);
            if exists|w2: int| 0 <= w2 < np && ps[w2].0 == j {
                let w2 = choose|w2: int| 0 <= w2 < np && ps[w2].0 == j;
                assert(crate::table::has_key_at(ps, j, w2));
            }
            if exists|w2: int| crate::table::has_key_at(ps, j, w2) {
                let w2 = choose|w2: int| crate::table::has_key_at(ps, j, w2);
                assert(0 <= w2 < np && ps[w2].0 == j);
            }
        }
        assert(all_commitments@.dom() =~= keysets@.dom());
        assert(keysets@.dom() =~= participants@.dom());
        assert(dkg_outcome(keysets@, fs, threshold)) by {
            assert forall|k: int| 0 <= k < fs.len() implies (#[trigger] fs[k]).len() == threshold
                && forall|c: int| 0 <= c < threshold ==> is_scalar(#[trigger] fs[k][c]) by {
                crate::table::lemma_map_of_index(ps, k);
                assert(participants@[ps[k].0].wf());
            }
        }
        assert forall|a: SignerId, b: SignerId, k: SignerId|
            #![trigger keysets@[a].public_shares@[k], keysets@[b].public_shares@[k]]
            keysets@.contains_key(a) && keysets@.contains_key(b) && keysets@.contains_key(k) && k != a && k != b
            implies keysets@[a].public_shares@[k]@ == keysets@[b].public_shares@[k]@ by {
            assert(all_commitments@.contains_key(k));
        }
        assert forall|j: SignerId| #[trigger] keysets@.contains_key(j) <==> participant_ids@.contains(j) by {
            crate::table::lemma_map_of_dom(ps, j);
            if exists|w2: int| 0 <= w2 < np && ps[w2].0 == j {
                let w2 = choose|w2: int| 0 <= w2 < np && ps[w2].0 == j;
                assert(crate::table::has_key_at(ps, j, w2));
            }
            if exists|w2: int| crate::table::has_key_at(ps, j, w2) {
                let w2 = choose|w2: int| crate::table::has_key_at(ps, j, w2);
                assert(0 <= w2 < np && ps[w2].0 == j);
            }
        }
    }
    Ok(keysets)
}


impl ThresholdKeyset {
    /// The tables are well formed and every share holds scalars.
    pub open spec fn wf(&self) -> bool {
        &&& self.shares.wf()
        &&& self.public_shares.wf()
        &&& forall|j: SignerId| #[trigger] self.shares@.contains_key(j) ==> is_scalar(self.shares@[j].x) && is_scalar(self.shares@[j].y)
    }
}

/// `(−x_k)·(x_i − x_k)⁻¹` modulo ℓ: one factor of a Lagrange coefficient.
pub open spec fn lagrange_factor(ids: Seq<SignerId>, i: int, k: int) -> int {
    (((0 - ids[k]) % (group_order() as int)) * le_nat(crate::group::spec_scalar_invert(enc(ids[i] - ids[k])))) % (group_order() as int)
}

/// `Π_{k < j, k ≠ i}` of the factors, reduced modulo ℓ after each step.
pub open spec fn lagrange_coeff(ids: Seq<SignerId>, i: int, j: int) -> int
    decreases j,
{
    if j <= 0 {
        1
    } else if j - 1 == i {
        lagrange_coeff(ids, i, j - 1)
    } else {
        (lagrange_coeff(ids, i, j - 1) * lagrange_factor(ids, i, j - 1)) % (group_order() as int)
    }
}

/// The Lagrange coefficient at 0 of the point `x_i` among `ids[..n]`,
/// as a scalar: `Π_{j ≠ i} (−x_j)·(x_i − x_j)⁻¹`.
fn lagrange_at_zero(ids: &Vec<SignerId>, n: usize, i: usize) -> (l: [u8; 32])
    requires
        n <= ids@.len(),
        i < n,
        forall|a: int, b: int| 0 <= a < b < n ==> ids@[a] != ids@[b],
    ensures
        is_scalar(l),
        sc(l) == lagrange_coeff(ids@, i as int, n as int),
{
    let xi = crate::group::scalar_from_u64(ids[i]);
    proof {
        crate::scalar::lemma_group_order_fits();
        vstd::arithmetic::div_mod::lemma_small_mod(ids@[i as int] as nat, group_order());
    }
    let mut lambda = crate::group::scalar_one();
    let mut j: usize = 0;
    while j < n
        invariant
            n <= ids@.len(),
            i < n,
            forall|a: int, b: int| 0 <= a < b < n ==> ids@[a] != ids@[b],
            is_scalar(xi),
            sc(xi) == ids@[i as int],
            0 <= j <= n,
            is_scalar(lambda),
            sc(lambda) == lagrange_coeff(ids@, i as int, j as int),
        decreases n - j,
    {
        if j != i {
            let xj = crate::group::scalar_from_u64(ids[j]);
            proof {
                crate::scalar::lemma_group_order_fits();
                vstd::arithmetic::div_mod::lemma_small_mod(ids@[j as int] as nat, group_order());
                if i < j { assert(ids@[i as int] != ids@[j as int]); } else { assert(ids@[j as int] != ids@[i as int]); }
            }
            let num = crate::group::scalar_neg(xj);
            let den = crate::group::scalar_sub(xi, xj);
            proof {
                let d = sc(xi) as int - sc(xj) as int;
                assert(d != 0);
                assert(-(group_order() as int) < d < group_order() as int);
                if d > 0 {
                    vstd::arithmetic::div_mod::lemma_small_mod(d as nat, group_order());
                } else {
                    vstd::arithmetic::div_mod::lemma_mod_add_multiples_vanish(d, group_order() as int);
                    vstd::arithmetic::div_mod::lemma_small_mod((d + group_order()) as nat, group_order());
                }
            }
            let inv = crate::group::scalar_invert(den);
            lambda = crate::group::scalar_mul(lambda, crate::group::scalar_mul(num, inv));
        }
        j = j + 1;
    }
    lambda
}

/// `Σ_{c < n} g_c·x^{c+1}`: the value at `x` of an update polynomial whose
/// coefficients `g` are those of `x, x², …`, so its constant term is zero.
pub open spec fn update_value(g: Seq<[u8; 32]>, xv: int, n: int) -> int
    decreases n,
{
    if n <= 0 { 0 } else { update_value(g, xv, n - 1) + sc(g[n - 1]) * pow(xv, n as nat) }
}

/// `Σ_{p < n}` of the update polynomials' values at `x`.
pub open spec fn updates_at(gs: Seq<Vec<[u8; 32]>>, xv: int, n: int) -> int
    decreases n,
{
    if n <= 0 { 0 } else { updates_at(gs, xv, n - 1) + update_value(gs[n - 1]@, xv, gs[n - 1]@.len() as int) }
}

/// The update polynomials have the shape resharing draws: one per share
/// holder, each with `t − 1` scalar coefficients.
pub open spec fn updates_shape(old: ThresholdKeyset, gs: Seq<Vec<[u8; 32]>>) -> bool {
    &&& gs.len() == old.shares.entries().len()
    &&& forall|p: int| 0 <= p < gs.len() ==> (#[trigger] gs[p])@.len() == (if old.threshold >= 1 { old.threshold - 1 } else { 0 })
        && forall|c: int| 0 <= c < gs[p]@.len() ==> is_scalar(#[trigger] gs[p]@[c])
}

/// The refreshed value of `j`'s share: `y_j + Σ_p g_p(j)` modulo ℓ.
pub open spec fn reshared_y(old: ThresholdKeyset, gs: Seq<Vec<[u8; 32]>>, j: SignerId) -> int {
    (sc(old.shares@[j].y) + updates_at(gs, j as int, gs.len() as int)) % (group_order() as int)
}

/// The share holders' identifiers, in table order.
pub open spec fn share_ids(ks: ThresholdKeyset) -> Seq<SignerId> {
    ks.shares.entries().map_values(|e: (SignerId, Share)| e.0)
}

/// `Σ_{i < k} λ_i·y'_i` modulo ℓ, with the Lagrange coefficients of the
/// first `m` holders and their refreshed shares.
pub open spec fn reshare_interp(old: ThresholdKeyset, gs: Seq<Vec<[u8; 32]>>, m: int, k: int) -> int
    decreases k,
{
    if k <= 0 {
        0
    } else {
        (reshare_interp(old, gs, m, k - 1)
            + (lagrange_coeff(share_ids(old), k - 1, m) * reshared_y(old, gs, share_ids(old)[k - 1])) % (group_order() as int))
            % (group_order() as int)
    }
}

/// The refreshed shares of the first `min(t, n)` holders interpolate at
/// 0 to the old group key.
pub open spec fn reshare_keeps_key(old: ThresholdKeyset, gs: Seq<Vec<[u8; 32]>>) -> bool {
    let n = old.shares.entries().len() as int;
    let m = if (old.threshold as int) < n { old.threshold as int } else { n };
    spec_point_enc(reshare_interp(old, gs, m, m)) == old.group_public@
}

/// Proactive resharing: adds to every share the value at its point of a
/// fresh random polynomial of degree `t − 1` per participant with zero
/// constant term, so the group secret stays and old shares become
/// useless. The group key is recomputed by Lagrange interpolation over
/// the first `t` participants; if it differs from the old one the reshare
/// is refused.
pub fn proactive_reshare(old: ThresholdKeyset) -> (r: Result<ThresholdKeyset, DkgError>)
    requires
        old.wf(),
    ensures
        r is Err ==> r == Err::<ThresholdKeyset, DkgError>(DkgError::InvalidShareReshare),
        r is Ok ==> {
            let ks = r->Ok_0;
            &&& ks.wf()
            &&& ks.group_public == old.group_public
            &&& ks.threshold == old.threshold
            &&& ks.total == old.total
            &&& ks.shares@.dom() == old.shares@.dom()
            &&& ks.public_shares@.dom() == old.shares@.dom()
            &&& forall|j: SignerId| #[trigger] ks.shares@.contains_key(j) ==> ks.shares@[j].x@ == enc(j as int)
                && ks.public_shares@[j]@ == spec_basepoint_mul(ks.shares@[j].y@)
        },
        exists|gs: Seq<Vec<[u8; 32]>>| #[trigger] updates_shape(old, gs)
            && (r is Ok <==> reshare_keeps_key(old, gs))
            && (r is Ok ==> forall|j: SignerId| #[trigger] r->Ok_0.shares@.contains_key(j)
                ==> sc(r->Ok_0.shares@[j].y) == reshared_y(old, gs, j)),
{
    let t = old.threshold;
    let n = old.shares.len();
    let ghost es = old.shares.entries();
    let ghost md = group_order() as int;
    let mut ids: Vec<SignerId> = Vec::new();
    let mut a: usize = 0;
    while a < n
        invariant
            n == es.len(),
            es == old.shares.entries(),
            0 <= a <= n,
            ids@.len() == a,
            forall|k: int| 0 <= k < a ==> ids@[k] == es[k].0,
        decreases n - a,
    {
        ids.push(old.shares.key_at(a));
        a = a + 1;
    }
    proof {
        assert forall|x: int, y: int| 0 <= x < y < n implies ids@[x] != ids@[y] by {
            assert(es[x].0 != es[y].0);
        }
        assert(ids@ =~= share_ids(old));
    }
    let deg: usize = if t >= 1 { t - 1 } else { 0 };
    // One random update polynomial per participant.
    let mut update_polys: Vec<Vec<[u8; 32]>> = Vec::new();
    let mut u: usize = 0;
    while u < n
        invariant
            0 <= u <= n,
            deg == (if t >= 1 { t - 1 } else { 0 }),
            update_polys@.len() == u,
            forall|k: int| 0 <= k < u ==> (#[trigger] update_polys@[k])@.len() == deg,
            forall|k: int, c: int| 0 <= k < u && 0 <= c < update_polys@[k]@.len() ==> is_scalar(#[trigger] update_polys@[k]@[c]),
        decreases n - u,
    {
        let mut coeffs: Vec<[u8; 32]> = Vec::new();
        let mut c: usize = 0;
        while c < deg
            invariant
                0 <= c <= deg,
                coeffs@.len() == c,
                forall|k: int| 0 <= k < c ==> is_scalar(#[trigger] coeffs@[k]),
            decreases deg - c,
        {
            coeffs.push(crate::group::random_scalar());
            c = c + 1;
        }
        update_polys.push(coeffs);
        proof {
            assert forall|k: int, c2: int| 0 <= k < u + 1 && 0 <= c2 < update_polys@[k]@.len() implies is_scalar(#[trigger] update_polys@[k]@[c2]) by {
                if k == u { assert(update_polys@[k] == coeffs); }
            }
        }
        u = u + 1;
    }
    let ghost gs = update_polys@;
    proof {
        assert(updates_shape(old, gs));
    }
    // The new shares.
    let mut new_shares: Table<SignerId, Share> = Table::new();
    let mut new_public_shares: Table<SignerId, [u8; 32]> = Table::new();
    let mut b: usize = 0;
    while b < n
        invariant
            n == es.len(),
            es == old.shares.entries(),
            md == group_order() as int,
            old.wf(),
            ids@.len() == n,
            forall|k: int| 0 <= k < n ==> ids@[k] == es[k].0,
            gs == update_polys@,
            forall|k: int, c: int| 0 <= k < n && 0 <= c < update_polys@[k]@.len() ==> is_scalar(#[trigger] update_polys@[k]@[c]),
            update_polys@.len() == n,
            0 <= b <= n,
            new_shares.wf(),
            new_public_shares.wf(),
            forall|j: SignerId| #[trigger] new_shares@.contains_key(j) <==> exists|k: int| 0 <= k < b && es[k].0 == j,
            forall|j: SignerId| #[trigger] new_public_shares@.contains_key(j) <==> new_shares@.contains_key(j),
            forall|j: SignerId| #[trigger] new_shares@.contains_key(j) ==> new_shares@[j].x@ == enc(j as int)
                && is_scalar(new_shares@[j].x) && is_scalar(new_shares@[j].y)
                && new_public_shares@[j]@ == spec_basepoint_mul(new_shares@[j].y@)
                && ristretto_valid(new_public_shares@[j]@)
                && encodes(new_public_shares@[j]@, sc(new_shares@[j].y) as int)
                && sc(new_shares@[j].y) == reshared_y(old, gs, j),
        decreases n - b,
    {
        let j = ids[b];
        let xj = crate::group::scalar_from_u64(j);
        proof {
            crate::scalar::lemma_group_order_fits();
            vstd::arithmetic::div_mod::lemma_small_mod(j as nat, group_order());
            crate::table::lemma_map_of_index(es, b as int);
            assert(old.shares@.contains_key(j));
        }
        let current = match old.shares.get(&j) {
            Some(sh) => *sh,
            None => { assert(false); return Err(DkgError::InvalidShareReshare); },
        };
        let ghost base = sc(current.y) as int;
        let ghost xv = j as int;
        let mut new_y = current.y;
        proof {
            vstd::arithmetic::div_mod::lemma_small_mod(sc(current.y), group_order());
        }
        let mut p: usize = 0;
        while p < n
            invariant
                md == group_order() as int,
                gs == update_polys@,
                update_polys@.len() == n,
                forall|k: int, c: int| 0 <= k < n && 0 <= c < update_polys@[k]@.len() ==> is_scalar(#[trigger] update_polys@[k]@[c]),
                is_scalar(xj),
                sc(xj) == xv,
                is_scalar(new_y),
                sc(new_y) == (base + updates_at(gs, xv, p as int)) % md,
                0 <= p <= n,
            decreases n - p,
        {
            let coeffs = &update_polys[p];
            let mut x_power = xj;
            proof {
                vstd::arithmetic::power::lemma_pow1(xv);
                vstd::arithmetic::div_mod::lemma_small_mod(xv as nat, group_order());
            }
            let mut c: usize = 0;
            while c < coeffs.len()
                invariant
                    md == group_order() as int,
                    0 <= p < n,
                    gs == update_polys@,
                    update_polys@.len() == n,
                    *coeffs == update_polys@[p as int],
                    forall|k: int, cc: int| 0 <= k < n && 0 <= cc < update_polys@[k]@.len() ==> is_scalar(#[trigger] update_polys@[k]@[cc]),
                    is_scalar(xj),
                    sc(xj) == xv,
                    is_scalar(new_y),
                    is_scalar(x_power),
                    sc(x_power) == pow(xv, (c + 1) as nat) % md,
                    sc(new_y) == (base + updates_at(gs, xv, p as int) + update_value(coeffs@, xv, c as int)) % md,
                    0 <= c <= coeffs@.len(),
                decreases coeffs@.len() - c,
            {
                let g = coeffs[c];
                let term = crate::group::scalar_mul(g, x_power);
                let next = crate::group::scalar_add(new_y, term);
                proof {
                    crate::primitives::shamir::lemma_mod_step(
                        base + updates_at(gs, xv, p as int) + update_value(coeffs@, xv, c as int),
                        sc(g) as int, pow(xv, (c + 1) as nat), md);
                }
                new_y = next;
                let next_power = crate::group::scalar_mul(x_power, xj);
                proof {
                    vstd::arithmetic::power::lemma_pow_adds(xv, (c + 1) as nat, 1);
                    vstd::arithmetic::power::lemma_pow1(xv);
                    vstd::arithmetic::div_mod::lemma_mul_mod_noop_left(pow(xv, (c + 1) as nat), xv, md);
                    assert(pow(xv, (c + 2) as nat) == pow(xv, (c + 1) as nat) * xv);
                }
                x_power = next_power;
                c = c + 1;
            }
            p = p + 1;
        }
        let pk = crate::group::basepoint_mul(new_y);
        new_shares.insert(j, Share { x: xj, y: new_y });
        new_public_shares.insert(j, pk);
        proof {
            assert(current == old.shares@[j]);
            assert forall|jj: SignerId| #[trigger] new_shares@.contains_key(jj) <==> exists|k: int| 0 <= k < b + 1 && es[k].0 == jj by {
                if exists|k: int| 0 <= k < b + 1 && es[k].0 == jj {
                    let k = choose|k: int| 0 <= k < b + 1 && es[k].0 == jj;
                    if k < b {
                        assert(exists|k2: int| 0 <= k2 < b && es[k2].0 == jj);
                    }
                }
                if exists|k: int| 0 <= k < b && es[k].0 == jj {
                    let k = choose|k: int| 0 <= k < b && es[k].0 == jj;
                    assert(0 <= k < b + 1 && es[k].0 == jj);
                }
            }
        }
        b = b + 1;
    }
    // The group key, recomputed from the first t public shares.
    let m: usize = if t < n { t } else { n };
    let mut acc = crate::group::identity_point();
    let mut i: usize = 0;
    while i < m
        invariant
            m <= n,
            m == (if (old.threshold as int) < n { old.threshold as int } else { n as int }),
            md == group_order() as int,
            ids@.len() == n,
            ids@ == share_ids(old),
            gs == update_polys@,
            forall|x: int, y: int| 0 <= x < y < n ==> ids@[x] != ids@[y],
            forall|k: int| 0 <= k < n ==> ids@[k] == es[k].0,
            n == es.len(),
            new_public_shares.wf(),
            forall|j: SignerId| #[trigger] new_shares@.contains_key(j) <==> exists|k: int| 0 <= k < n && es[k].0 == j,
            forall|j: SignerId| #[trigger] new_public_shares@.contains_key(j) <==> new_shares@.contains_key(j),
            forall|j: SignerId| #[trigger] new_shares@.contains_key(j) ==> ristretto_valid(new_public_shares@[j]@)
                && encodes(new_public_shares@[j]@, sc(new_shares@[j].y) as int)
                && sc(new_shares@[j].y) == reshared_y(old, gs, j),
            0 <= i <= m,
            ristretto_valid(acc@),
            encodes(acc@, reshare_interp(old, gs, m as int, i as int)),
        decreases m - i,
    {
        let lambda = lagrange_at_zero(&ids, m, i);
        let id = ids[i];
        proof {
            assert(0 <= i < n && es[i as int].0 == id);
            assert(new_shares@.contains_key(id));
        }
        let pk_i = match new_public_shares.get(&id) {
            Some(pk) => *pk,
            None => { assert(false); return Err(DkgError::InvalidShareReshare); },
        };
        let term = crate::group::point_mul(lambda, pk_i);
        acc = crate::group::point_add(acc, term);
        proof {
            assert(share_ids(old)[i as int] == id);
        }
        i = i + 1;
    }
    if !crate::bytes::bytes32_eq(&acc, &old.group_public) {
        proof {
            assert(!reshare_keeps_key(old, gs));
        }
        return Err(DkgError::InvalidShareReshare);
    }
    proof {
        assert forall|j: SignerId| #[trigger] new_shares@.contains_key(j) <==> old.shares@.contains_key(j) by {
            crate::table::lemma_map_of_dom(es, j);
            if exists|k: int| 0 <= k < n && es[k].0 == j {
                let k = choose|k: int| 0 <= k < n && es[k].0 == j;
                assert(crate::table::has_key_at(es, j, k));
            }
            if exists|k: int| crate::table::has_key_at(es, j, k) {
                let k = choose|k: int| crate::table::has_key_at(es, j, k);
                assert(0 <= k < n && es[k].0 == j);
            }
        }
        assert(new_shares@.dom() =~= old.shares@.dom());
        assert(new_public_shares@.dom() =~= old.shares@.dom());
        assert(reshare_keeps_key(old, gs));
    }
    Ok(ThresholdKeyset {
        group_public: old.group_public,
        threshold: t,
        total: old.total,
        shares: new_shares,
        public_shares: new_public_shares,
    })
}

} // verus!
