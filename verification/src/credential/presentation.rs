//! Selective-disclosure presentations of credentials.

use vstd::prelude::*;
use vstd::string::*;
use crate::bytes::le_nat;
use crate::hashing::spec_sha512;
use crate::scalar::{enc, sc, is_scalar, group_order};
use crate::group::{ristretto_valid, spec_point_enc, spec_dlog, encodes};
use crate::primitives::pedersen::{PedersenParams, vector_generator};
use crate::credential::credential::{Attributes, Credential};
use crate::credential::issuer::credential_signature_valid;

verus! {

/// A presentation: the credential commitment and issuer signature, the
/// disclosed attributes, and a proof of knowledge of the hidden ones.
#[derive(Clone, Debug)]
pub struct Presentation {
    pub commitment: [u8; 32],
    pub issuer_pk: [u8; 32],
    pub cred_signature_s: [u8; 32],
    pub cred_signature_e: [u8; 32],
    /// Disclosed attribute values, by attribute index.
    pub disclosed: Vec<(usize, [u8; 32])>,
    pub proof_commitment: [u8; 32],
    pub proof_response: Vec<[u8; 32]>,
    pub proof_challenge: [u8; 32],
}

/// Index of the KYC attribute.
pub const ATTR_KYC_PASSED: usize = 0;
/// Index of the sanctions attribute.
pub const ATTR_NOT_SANCTIONED: usize = 1;
/// Index of the jurisdiction attribute.
pub const ATTR_JURISDICTION: usize = 2;
/// Index of the age attribute.
pub const ATTR_AGE_OVER_18: usize = 3;


broadcast use crate::scalar::lemma_enc;

/// The attribute indices below `k` not listed in `disclosed`, in order.
pub open spec fn hidden_upto(disclosed: Seq<usize>, k: int) -> Seq<usize>
    decreases k,
{
    if k <= 0 {
        Seq::empty()
    } else if disclosed.contains((k - 1) as usize) {
        hidden_upto(disclosed, k - 1)
    } else {
        hidden_upto(disclosed, k - 1).push((k - 1) as usize)
    }
}

/// The undisclosed attribute indices, in order.
pub open spec fn hidden_indices(disclosed: Seq<usize>) -> Seq<usize> {
    hidden_upto(disclosed, 4)
}

/// The indices of disclosed attributes.
pub open spec fn disclosed_indices(ds: Seq<(usize, [u8; 32])>) -> Seq<usize> {
    ds.map_values(|e: (usize, [u8; 32])| e.0)
}

/// The disclosed attributes as hashed into the challenge: each index
/// (u64 LE) and value.
pub open spec fn disclosed_hash_bytes(ds: Seq<(usize, [u8; 32])>) -> Seq<u8>
    decreases ds.len(),
{
    if ds.len() == 0 {
        Seq::empty()
    } else {
        disclosed_hash_bytes(ds.drop_last()) + vstd::bytes::spec_u64_to_le_bytes(ds.last().0 as u64) + ds.last().1@
    }
}

/// The challenge of a presentation proof.
pub open spec fn presentation_challenge(c: Seq<u8>, t: Seq<u8>, ds: Seq<(usize, [u8; 32])>, pk: Seq<u8>) -> Seq<u8> {
    enc(le_nat(spec_sha512("specter-presentation-challenge:".spec_bytes() + c + t + pk + disclosed_hash_bytes(ds))) as int)
}

/// The discrete log of the attribute generator `G_i`.
pub open spec fn gen_dlog(i: usize) -> int {
    spec_dlog(vector_generator(i as nat))
}

/// `Σ v·dlog(G_i)` over the first `n` disclosed attributes `(i, v)`.
pub open spec fn disclosed_dlog(ds: Seq<(usize, [u8; 32])>, n: int) -> int
    decreases n,
{
    if n <= 0 { 0 } else { disclosed_dlog(ds, n - 1) + sc(ds[n - 1].1) * gen_dlog(ds[n - 1].0) }
}

/// `Σ s_j·dlog(G_{hidden[j]})` over the first `n` hidden attributes.
pub open spec fn hidden_dlog(s: Seq<[u8; 32]>, hidden: Seq<usize>, n: int) -> int
    decreases n,
{
    if n <= 0 { 0 } else { hidden_dlog(s, hidden, n - 1) + sc(s[n - 1]) * gen_dlog(hidden[n - 1]) }
}

/// The discrete log of the proof commitment recomputed from the responses:
/// `Σ s_j·G_{hidden[j]} + s_b·H − c·(C − Σ v·G_i)`.
pub open spec fn recomputed_dlog(p: Presentation, h: Seq<u8>) -> int {
    let hidden = hidden_indices(disclosed_indices(p.disclosed@));
    let n = hidden.len() as int;
    let ds = p.disclosed@;
    hidden_dlog(p.proof_response@, hidden, n) + sc(p.proof_response@[n]) * spec_dlog(h)
        - sc(p.proof_challenge) * (spec_dlog(p.commitment@) - disclosed_dlog(ds, ds.len() as int))
}

/// The proof commitment recomputed from the responses, as an encoding.
pub open spec fn recomputed_commitment(p: Presentation, h: Seq<u8>) -> Seq<u8> {
    spec_point_enc(recomputed_dlog(p, h) % (group_order() as int))
}

/// Whether a presentation verifies under the commitment parameters `params`.
pub open spec fn presentation_valid(p: Presentation, params: PedersenParams) -> bool {
    let hidden = hidden_indices(disclosed_indices(p.disclosed@));
    &&& credential_signature_valid(p.commitment@, p.cred_signature_s, p.cred_signature_e, p.issuer_pk@)
    &&& ristretto_valid(p.commitment@)
    &&& (forall|j: int| 0 <= j < p.disclosed@.len() ==> is_scalar(#[trigger] p.disclosed@[j].1))
    &&& (forall|j: int| 0 <= j <= hidden.len() ==> is_scalar(#[trigger] p.proof_response@[j]))
    &&& is_scalar(p.proof_challenge)
    &&& presentation_challenge(p.commitment@, recomputed_commitment(p, params.h@), p.disclosed@, p.issuer_pk@) == p.proof_challenge@
}

fn contains_index(v: &[usize], x: usize) -> (b: bool)
    ensures
        b == v@.contains(x),
{
    let mut i: usize = 0;
    while i < v.len()
        invariant
            0 <= i <= v@.len(),
            forall|j: int| 0 <= j < i ==> v@[j] != x,
        decreases v@.len() - i,
    {
        if v[i] == x {
            return true;
        }
        i = i + 1;
    }
    false
}

/// The undisclosed indices among `0..4`.
fn hidden_of(disclosed: &[usize]) -> (h: Vec<usize>)
    ensures
        h@ == hidden_indices(disclosed@),
        forall|j: int| 0 <= j < h@.len() ==> h@[j] < 4,
        h@.len() <= 4,
{
    let mut h: Vec<usize> = Vec::new();
    let mut k: usize = 0;
    while k < 4
        invariant
            0 <= k <= 4,
            h@ == hidden_upto(disclosed@, k as int),
            forall|j: int| 0 <= j < h@.len() ==> h@[j] < k,
            h@.len() <= k,
        decreases 4 - k,
    {
        if !contains_index(disclosed, k) {
            h.push(k);
        }
        k = k + 1;
    }
    h
}

fn hash_presentation_challenge(c: &[u8; 32], t: &[u8; 32], disclosed: &Vec<(usize, [u8; 32])>, pk: &[u8; 32]) -> (e: [u8; 32])
    ensures
        is_scalar(e),
        e@ == presentation_challenge(c@, t@, disclosed@, pk@),
{
    let mut buf: Vec<u8> = Vec::new();
    crate::bytes::append_bytes(&mut buf, "specter-presentation-challenge:".as_bytes());
    crate::bytes::append_bytes(&mut buf, c);
    crate::bytes::append_bytes(&mut buf, t);
    crate::bytes::append_bytes(&mut buf, pk);
    let ghost head = buf@;
    let mut i: usize = 0;
    while i < disclosed.len()
        invariant
            0 <= i <= disclosed@.len(),
            buf@ == head + disclosed_hash_bytes(disclosed@.take(i as int)),
        decreases disclosed@.len() - i,
    {
        let (idx, v) = disclosed[i];
        let ib = vstd::bytes::u64_to_le_bytes(idx as u64);
        crate::bytes::append_bytes(&mut buf, ib.as_slice());
        crate::bytes::append_bytes(&mut buf, &v);
        proof {
            assert(disclosed@.take(i + 1).drop_last() =~= disclosed@.take(i as int));
        }
        i = i + 1;
    }
    assert(disclosed@.take(disclosed@.len() as int) =~= disclosed@);
    let h = crate::hashing::sha512(buf.as_slice());
    crate::group::scalar_from_digest(&h)
}

/// The responses of an honestly made proof: `s_j = r_j + c·v_{hidden[j]}`
/// for each hidden attribute, and `s_b = r_b + c·blinding` last, for the
/// proof randomness `rs`.
pub open spec fn honest_responses(resp: Seq<[u8; 32]>, rs: Seq<[u8; 32]>, c: [u8; 32], vals: Seq<[u8; 32]>, hidden: Seq<usize>, blinding: [u8; 32]) -> bool {
    let n = hidden.len() as int;
    &&& rs.len() == n + 1
    &&& resp.len() == n + 1
    &&& forall|j: int| 0 <= j <= n ==> is_scalar(#[trigger] rs[j])
    &&& forall|j: int| 0 <= j < n ==> (#[trigger] resp[j])@ == enc(sc(rs[j]) + ((sc(c) * sc(vals[hidden[j] as int])) % group_order()) as int)
    &&& resp[n]@ == enc(sc(rs[n]) + ((sc(c) * sc(blinding)) % group_order()) as int)
}

/// The proof commitment made from the randomness `rs`:
/// `Σ r_j·G_{hidden[j]} + r_b·H`, as an encoding.
pub open spec fn proof_commitment_of(rs: Seq<[u8; 32]>, hidden: Seq<usize>, h: Seq<u8>) -> Seq<u8> {
    let n = hidden.len() as int;
    spec_point_enc((hidden_dlog(rs, hidden, n) + sc(rs[n]) * spec_dlog(h)) % (group_order() as int))
}

/// `hidden_dlog` reads only the first `n` entries.
proof fn lemma_hidden_dlog_prefix(s1: Seq<[u8; 32]>, s2: Seq<[u8; 32]>, hidden: Seq<usize>, n: int)
    requires
        forall|k: int| 0 <= k < n ==> s1[k] == s2[k],
    ensures
        hidden_dlog(s1, hidden, n) == hidden_dlog(s2, hidden, n),
    decreases n,
{
    if n > 0 {
        lemma_hidden_dlog_prefix(s1, s2, hidden, n - 1);
    }
}

/// One step of a running sum kept as an encoding: adding `x·P` to the
/// encoding of `a mod ℓ` gives the encoding of `(a + x·dlog P) mod ℓ`.
proof fn lemma_add_term(a: int, x: int, d: int)
    ensures
        ((a % (group_order() as int)) + (x * d) % (group_order() as int)) % (group_order() as int) == (a + x * d) % (group_order() as int),
{
    vstd::arithmetic::div_mod::lemma_add_mod_noop(a, x * d, (group_order() as int));
    vstd::arithmetic::div_mod::lemma_mod_twice(a, (group_order() as int));
}

/// Creates a presentation of `credential` that discloses the attributes at
/// `disclose_indices`, with a proof of knowledge of the other attributes
/// and the blinding factor made from fresh randomness.
pub fn create_presentation(credential: &Credential, disclose_indices: &[usize], pedersen: &PedersenParams) -> (p: Presentation)
    requires
        pedersen.wf(),
        is_scalar(credential.blinding),
        forall|j: int| 0 <= j < disclose_indices@.len() ==> #[trigger] disclose_indices@[j] < 4,
    ensures
        p.commitment == credential.commitment,
        p.issuer_pk == credential.issuer_pk,
        p.cred_signature_s == credential.signature_s,
        p.cred_signature_e == credential.signature_e,
        disclosed_indices(p.disclosed@) == disclose_indices@,
        forall|j: int| 0 <= j < p.disclosed@.len() ==>
            (#[trigger] p.disclosed@[j]).1 == credential.attributes.scalars_spec()[disclose_indices@[j] as int],
        is_scalar(p.proof_challenge),
        p.proof_challenge@ == presentation_challenge(credential.commitment@, p.proof_commitment@, p.disclosed@, credential.issuer_pk@),
        exists|rs: Seq<[u8; 32]>| #[trigger] honest_responses(p.proof_response@, rs, p.proof_challenge,
            credential.attributes.scalars_spec(), hidden_indices(disclose_indices@), credential.blinding)
            && p.proof_commitment@ == proof_commitment_of(rs, hidden_indices(disclose_indices@), pedersen.h@),
        // What it makes of an honestly committed and signed credential verifies.
        (forall|a: int, b: int| 0 <= a < b < disclose_indices@.len() ==> disclose_indices@[a] != disclose_indices@[b])
            && credential_signature_valid(credential.commitment@, credential.signature_s, credential.signature_e, credential.issuer_pk@)
            && ristretto_valid(credential.commitment@)
            && encodes(credential.commitment@,
                pedersen.commit_vector_dlog(credential.attributes.scalars_spec(), credential.blinding) % (group_order() as int))
            ==> presentation_checkable(p) && presentation_valid(p, *pedersen),
{
    let all = credential.attributes.to_scalars();
    let mut disclosed: Vec<(usize, [u8; 32])> = Vec::new();
    let mut i: usize = 0;
    while i < disclose_indices.len()
        invariant
            all@ == credential.attributes.scalars_spec(),
            all@.len() == 4,
            forall|j: int| 0 <= j < disclose_indices@.len() ==> #[trigger] disclose_indices@[j] < 4,
            0 <= i <= disclose_indices@.len(),
            disclosed@.len() == i,
            disclosed_indices(disclosed@) == disclose_indices@.take(i as int),
            forall|j: int| 0 <= j < i ==> (#[trigger] disclosed@[j]).1 == all@[disclose_indices@[j] as int],
        decreases disclose_indices@.len() - i,
    {
        let k = disclose_indices[i];
        disclosed.push((k, all[k]));
        proof {
            assert(disclosed_indices(disclosed@) =~= disclose_indices@.take(i + 1));
        }
        i = i + 1;
    }
    assert(disclose_indices@.take(disclose_indices@.len() as int) =~= disclose_indices@);
    let hidden = hidden_of(disclose_indices);
    let n = hidden.len();
    let mut randoms: Vec<[u8; 32]> = Vec::new();
    let mut t = crate::group::identity_point();
    let mut j: usize = 0;
    while j < n
        invariant
            n == hidden@.len(),
            forall|q: int| 0 <= q < hidden@.len() ==> hidden@[q] < 4,
            0 <= j <= n,
            randoms@.len() == j,
            forall|q: int| 0 <= q < j ==> is_scalar(#[trigger] randoms@[q]),
            ristretto_valid(t@),
            encodes(t@, hidden_dlog(randoms@, hidden@, j as int) % (group_order() as int)),
        decreases n - j,
    {
        let r = crate::group::random_scalar();
        let ghost before = randoms@;
        randoms.push(r);
        proof { lemma_hidden_dlog_prefix(before, randoms@, hidden@, j as int); }
        let g = crate::primitives::pedersen::generator(hidden[j]);
        let term = crate::group::point_mul(r, g);
        t = crate::group::point_add(t, term);
        proof { lemma_add_term(hidden_dlog(before, hidden@, j as int), sc(r) as int, gen_dlog(hidden@[j as int])); }
        j = j + 1;
    }
    let rb = crate::group::random_scalar();
    let ghost before = randoms@;
    randoms.push(rb);
    proof { lemma_hidden_dlog_prefix(before, randoms@, hidden@, n as int); }
    let term = crate::group::point_mul(rb, pedersen.h);
    t = crate::group::point_add(t, term);
    proof { lemma_add_term(hidden_dlog(randoms@, hidden@, n as int), sc(rb) as int, spec_dlog(pedersen.h@)); }
    let challenge = hash_presentation_challenge(&credential.commitment, &t, &disclosed, &credential.issuer_pk);
    let mut responses: Vec<[u8; 32]> = Vec::new();
    let mut j: usize = 0;
    while j < n
        invariant
            n == hidden@.len(),
            forall|q: int| 0 <= q < hidden@.len() ==> hidden@[q] < 4,
            all@ == credential.attributes.scalars_spec(),
            all@.len() == 4,
            forall|q: int| 0 <= q < 4 ==> is_scalar(#[trigger] all@[q]),
            is_scalar(challenge),
            randoms@.len() == n + 1,
            forall|q: int| 0 <= q <= n ==> is_scalar(#[trigger] randoms@[q]),
            0 <= j <= n,
            responses@.len() == j,
            forall|q: int| 0 <= q < j ==> (#[trigger] responses@[q])@
                == enc(sc(randoms@[q]) + ((sc(challenge) * sc(all@[hidden@[q] as int])) % group_order()) as int),
        decreases n - j,
    {
        let s = crate::group::schnorr_response(randoms[j], challenge, all[hidden[j]]);
        responses.push(s);
        j = j + 1;
    }
    let sb = crate::group::schnorr_response(rb, challenge, credential.blinding);
    responses.push(sb);
    let p = Presentation {
        commitment: credential.commitment,
        issuer_pk: credential.issuer_pk,
        cred_signature_s: credential.signature_s,
        cred_signature_e: credential.signature_e,
        disclosed,
        proof_commitment: t,
        proof_response: responses,
        proof_challenge: challenge,
    };
    assert(honest_responses(p.proof_response@, randoms@, p.proof_challenge,
        credential.attributes.scalars_spec(), hidden_indices(disclose_indices@), credential.blinding));
    proof {
        if (forall|a: int, b: int| 0 <= a < b < disclose_indices@.len() ==> disclose_indices@[a] != disclose_indices@[b])
            && credential_signature_valid(credential.commitment@, credential.signature_s, credential.signature_e, credential.issuer_pk@)
            && ristretto_valid(credential.commitment@)
            && encodes(credential.commitment@,
                pedersen.commit_vector_dlog(credential.attributes.scalars_spec(), credential.blinding) % (group_order() as int)) {
            law_honest_presentation_verifies(*credential, disclose_indices@, *pedersen, p);
        }
    }
    p
}

/// Whether the presentation's indices name attributes and its responses
/// cover every undisclosed attribute, so that it can be checked.
pub open spec fn presentation_checkable(p: Presentation) -> bool {
    &&& forall|j: int| 0 <= j < p.disclosed@.len() ==> (#[trigger] p.disclosed@[j]).0 < 4
    &&& p.proof_response@.len() > hidden_indices(disclosed_indices(p.disclosed@)).len()
}

/// Verifies a presentation of any shape: `None` when an index does not
/// name an attribute or the responses are too few, otherwise whether it
/// verifies.
pub fn verify_presentation_checked(presentation: &Presentation, pedersen: &PedersenParams) -> (r: Option<bool>)
    requires
        pedersen.wf(),
    ensures
        r is Some <==> presentation_checkable(*presentation),
        r is Some ==> r->0 == presentation_valid(*presentation, *pedersen),
{
    let ghost ds = presentation.disclosed@;
    let mut idxs: Vec<usize> = Vec::new();
    let mut i: usize = 0;
    while i < presentation.disclosed.len()
        invariant
            ds == presentation.disclosed@,
            0 <= i <= ds.len(),
            forall|j: int| 0 <= j < i ==> (#[trigger] ds[j]).0 < 4,
            idxs@ == disclosed_indices(ds.take(i as int)),
        decreases ds.len() - i,
    {
        if presentation.disclosed[i].0 >= 4 {
            return None;
        }
        idxs.push(presentation.disclosed[i].0);
        i = i + 1;
        assert(disclosed_indices(ds.take(i as int)) =~= disclosed_indices(ds.take((i - 1) as int)).push(ds[i - 1].0));
    }
    assert(ds.take(ds.len() as int) =~= ds);
    let hidden = hidden_of(idxs.as_slice());
    if presentation.proof_response.len() <= hidden.len() {
        return None;
    }
    Some(verify_well_formed(presentation, pedersen))
}

/// Verifies a presentation: the issuer's signature on the commitment, and
/// the proof of knowledge of the undisclosed attributes and blinding.
/// A presentation with an index that names no attribute, or with too few
/// responses, is refused.
pub fn verify_presentation(presentation: &Presentation, pedersen: &PedersenParams) -> (ok: bool)
    requires
        pedersen.wf(),
    ensures
        ok == (presentation_checkable(*presentation) && presentation_valid(*presentation, *pedersen)),
{
    match verify_presentation_checked(presentation, pedersen) {
        Some(b) => b,
        None => false,
    }
}

/// Verifies a presentation whose indices name attributes and whose
/// responses cover every undisclosed attribute.
fn verify_well_formed(presentation: &Presentation, pedersen: &PedersenParams) -> (ok: bool)
    requires
        pedersen.wf(),
        forall|j: int| 0 <= j < presentation.disclosed@.len() ==> (#[trigger] presentation.disclosed@[j]).0 < 4,
        presentation.proof_response@.len() > hidden_indices(disclosed_indices(presentation.disclosed@)).len(),
    ensures
        ok == presentation_valid(*presentation, *pedersen),
{
    if !crate::credential::issuer::check_signature(&presentation.commitment, &presentation.cred_signature_s,
        &presentation.cred_signature_e, &presentation.issuer_pk) {
        return false;
    }
    if !crate::group::point_is_valid(&presentation.commitment) {
        return false;
    }
    let ghost ds = presentation.disclosed@;
    let mut idxs: Vec<usize> = Vec::new();
    let mut i: usize = 0;
    let mut disclosed_part = crate::group::identity_point();
    while i < presentation.disclosed.len()
        invariant
            ds == presentation.disclosed@,
            forall|j: int| 0 <= j < ds.len() ==> (#[trigger] ds[j]).0 < 4,
            0 <= i <= ds.len(),
            idxs@ == disclosed_indices(ds.take(i as int)),
            forall|j: int| 0 <= j < i ==> is_scalar(#[trigger] ds[j].1),
            ristretto_valid(disclosed_part@),
            encodes(disclosed_part@, disclosed_dlog(ds, i as int) % (group_order() as int)),
        decreases ds.len() - i,
    {
        let (idx, v) = presentation.disclosed[i];
        let v = match crate::group::scalar_from_canonical(v) {
            Some(x) => x,
            None => {
                assert(!is_scalar(presentation.disclosed@[i as int].1));
                return false;
            },
        };
        let g = crate::primitives::pedersen::generator(idx);
        let term = crate::group::point_mul(v, g);
        disclosed_part = crate::group::point_add(disclosed_part, term);
        proof { lemma_add_term(disclosed_dlog(ds, i as int), sc(v) as int, gen_dlog(idx)); }
        idxs.push(idx);
        proof {
            assert(disclosed_indices(ds.take(i + 1)) =~= disclosed_indices(ds.take(i as int)).push(idx));
        }
        i = i + 1;
    }
    assert(ds.take(ds.len() as int) =~= ds);
    assert(idxs@ == disclosed_indices(ds));
    let hidden = hidden_of(idxs.as_slice());
    let c_hidden = crate::group::point_sub(presentation.commitment, disclosed_part);
    let ghost dc = spec_dlog(presentation.commitment@);
    let ghost dd = disclosed_dlog(ds, ds.len() as int);
    proof {
        vstd::arithmetic::div_mod::lemma_sub_mod_noop(dc, dd, (group_order() as int));
        vstd::arithmetic::div_mod::lemma_small_mod(dc as nat, group_order());
    }
    let mut t = crate::group::identity_point();
    let n = hidden.len();
    let mut j: usize = 0;
    while j < n
        invariant
            n == hidden@.len(),
            n < presentation.proof_response@.len(),
            hidden@ == hidden_indices(disclosed_indices(presentation.disclosed@)),
            forall|q: int| 0 <= q < hidden@.len() ==> hidden@[q] < 4,
            0 <= j <= n,
            forall|q: int| 0 <= q < j ==> is_scalar(#[trigger] presentation.proof_response@[q]),
            ristretto_valid(t@),
            encodes(t@, hidden_dlog(presentation.proof_response@, hidden@, j as int) % (group_order() as int)),
        decreases n - j,
    {
        let s = match crate::group::scalar_from_canonical(presentation.proof_response[j]) {
            Some(x) => x,
            None => {
                assert(!is_scalar(presentation.proof_response@[j as int]));
                return false;
            },
        };
        let g = crate::primitives::pedersen::generator(hidden[j]);
        let term = crate::group::point_mul(s, g);
        t = crate::group::point_add(t, term);
        proof { lemma_add_term(hidden_dlog(presentation.proof_response@, hidden@, j as int), sc(s) as int, gen_dlog(hidden@[j as int])); }
        j = j + 1;
    }
    let sb = match crate::group::scalar_from_canonical(presentation.proof_response[n]) {
        Some(x) => x,
        None => {
            assert(!is_scalar(presentation.proof_response@[n as int]));
            return false;
        },
    };
    let c = match crate::group::scalar_from_canonical(presentation.proof_challenge) {
        Some(x) => x,
        None => return false,
    };
    let hterm = crate::group::point_mul(sb, pedersen.h);
    t = crate::group::point_add(t, hterm);
    let ghost hd = hidden_dlog(presentation.proof_response@, hidden@, n as int);
    proof { lemma_add_term(hd, sc(sb) as int, spec_dlog(pedersen.h@)); }
    let cterm = crate::group::point_mul(c, c_hidden);
    t = crate::group::point_sub(t, cterm);
    proof {
        vstd::arithmetic::div_mod::lemma_mul_mod_noop_right(sc(c) as int, dc - dd, (group_order() as int));
        vstd::arithmetic::div_mod::lemma_sub_mod_noop(hd + sc(sb) * spec_dlog(pedersen.h@), sc(c) * (dc - dd), (group_order() as int));
        assert(t@ == recomputed_commitment(*presentation, pedersen.h@));
    }
    let expected = hash_presentation_challenge(&presentation.commitment, &t, &presentation.disclosed, &presentation.issuer_pk);
    crate::bytes::bytes32_eq(&expected, &presentation.proof_challenge)
}

// ─── An honest presentation verifies ───────────────────────────────────

/// `Σ_{j < n} a_{l[j]}·dlog(G_{l[j]})`: the attribute terms at the listed
/// indices.
pub open spec fn attr_sum(vals: Seq<[u8; 32]>, l: Seq<usize>, n: int) -> int
    decreases n,
{
    if n <= 0 { 0 } else { attr_sum(vals, l, n - 1) + sc(vals[l[n - 1] as int]) * gen_dlog(l[n - 1]) }
}

/// The term `a_k·dlog(G_k)` of attribute `k`.
pub open spec fn attr_term(vals: Seq<[u8; 32]>, k: usize) -> int {
    sc(vals[k as int]) * gen_dlog(k)
}

/// How often `k` occurs among the first `n` entries.
pub open spec fn occurrences(l: Seq<usize>, k: usize, n: int) -> int
    decreases n,
{
    if n <= 0 { 0 } else { occurrences(l, k, n - 1) + if l[n - 1] == k { 1int } else { 0int } }
}

proof fn lemma_attr_sum_counts(vals: Seq<[u8; 32]>, l: Seq<usize>, n: int)
    requires
        0 <= n <= l.len(),
        forall|j: int| 0 <= j < n ==> #[trigger] l[j] < 4,
    ensures
        attr_sum(vals, l, n) == occurrences(l, 0, n) * attr_term(vals, 0) + occurrences(l, 1, n) * attr_term(vals, 1)
            + occurrences(l, 2, n) * attr_term(vals, 2) + occurrences(l, 3, n) * attr_term(vals, 3),
    decreases n,
{
    if n > 0 {
        lemma_attr_sum_counts(vals, l, n - 1);
        let x = l[n - 1];
        assert(x < 4);
        let o0 = occurrences(l, 0, n - 1);
        let o1 = occurrences(l, 1, n - 1);
        let o2 = occurrences(l, 2, n - 1);
        let o3 = occurrences(l, 3, n - 1);
        let t0 = attr_term(vals, 0);
        let t1 = attr_term(vals, 1);
        let t2 = attr_term(vals, 2);
        let t3 = attr_term(vals, 3);
        assert((o0 + 1) * t0 == o0 * t0 + t0) by (nonlinear_arith);
        assert((o1 + 1) * t1 == o1 * t1 + t1) by (nonlinear_arith);
        assert((o2 + 1) * t2 == o2 * t2 + t2) by (nonlinear_arith);
        assert((o3 + 1) * t3 == o3 * t3 + t3) by (nonlinear_arith);
    }
}

proof fn lemma_occurrences_distinct(l: Seq<usize>, k: usize, n: int)
    requires
        0 <= n <= l.len(),
        forall|a: int, b: int| 0 <= a < b < n ==> l[a] != l[b],
    ensures
        occurrences(l, k, n) == if exists|j: int| 0 <= j < n && l[j] == k { 1int } else { 0int },
    decreases n,
{
    if n > 0 {
        lemma_occurrences_distinct(l, k, n - 1);
        if l[n - 1] == k {
            assert(!exists|j: int| 0 <= j < n - 1 && l[j] == k) by {
                if exists|j: int| 0 <= j < n - 1 && l[j] == k {
                    let j = choose|j: int| 0 <= j < n - 1 && l[j] == k;
                    assert(l[j] != l[n - 1]);
                }
            }
            assert(exists|j: int| 0 <= j < n && l[j] == k) by { assert(l[n - 1] == k); }
        } else {
            if exists|j: int| 0 <= j < n && l[j] == k {
                let j = choose|j: int| 0 <= j < n && l[j] == k;
                assert(0 <= j < n - 1 && l[j] == k);
            }
            if exists|j: int| 0 <= j < n - 1 && l[j] == k {
                let j = choose|j: int| 0 <= j < n - 1 && l[j] == k;
                assert(0 <= j < n && l[j] == k);
            }
        }
    }
}

proof fn lemma_occurrences_push(l: Seq<usize>, x: usize, k: usize, n: int)
    requires
        0 <= n <= l.len(),
    ensures
        occurrences(l.push(x), k, n) == occurrences(l, k, n),
    decreases n,
{
    if n > 0 {
        lemma_occurrences_push(l, x, k, n - 1);
        assert(l.push(x)[n - 1] == l[n - 1]);
    }
}

proof fn lemma_hidden_occurrences(d: Seq<usize>, m: int, k: usize)
    requires
        0 <= m <= 4,
    ensures
        occurrences(hidden_upto(d, m), k, hidden_upto(d, m).len() as int)
            == if k < m && !d.contains(k) { 1int } else { 0int },
        forall|j: int| 0 <= j < hidden_upto(d, m).len() ==> #[trigger] hidden_upto(d, m)[j] < m,
    decreases m,
{
    if m > 0 {
        lemma_hidden_occurrences(d, m - 1, k);
        let h = hidden_upto(d, m - 1);
        if !d.contains((m - 1) as usize) {
            lemma_occurrences_push(h, (m - 1) as usize, k, h.len() as int);
            assert(hidden_upto(d, m) == h.push((m - 1) as usize));
            assert(hidden_upto(d, m)[h.len() as int] == (m - 1) as usize);
            assert forall|j: int| 0 <= j < hidden_upto(d, m).len() implies #[trigger] hidden_upto(d, m)[j] < m by {
                if j < h.len() {
                    assert(hidden_upto(d, m)[j] == h[j]);
                }
            }
        }
    }
}

/// The hidden and the disclosed attribute terms together are all four.
proof fn lemma_partition(vals: Seq<[u8; 32]>, idx: Seq<usize>)
    requires
        forall|j: int| 0 <= j < idx.len() ==> #[trigger] idx[j] < 4,
        forall|a: int, b: int| 0 <= a < b < idx.len() ==> idx[a] != idx[b],
    ensures
        attr_sum(vals, hidden_indices(idx), hidden_indices(idx).len() as int) + attr_sum(vals, idx, idx.len() as int)
            == attr_term(vals, 0) + attr_term(vals, 1) + attr_term(vals, 2) + attr_term(vals, 3),
{
    let h = hidden_indices(idx);
    lemma_hidden_occurrences(idx, 4, 0);
    lemma_hidden_occurrences(idx, 4, 1);
    lemma_hidden_occurrences(idx, 4, 2);
    lemma_hidden_occurrences(idx, 4, 3);
    lemma_attr_sum_counts(vals, h, h.len() as int);
    lemma_attr_sum_counts(vals, idx, idx.len() as int);
    lemma_occurrences_distinct(idx, 0, idx.len() as int);
    lemma_occurrences_distinct(idx, 1, idx.len() as int);
    lemma_occurrences_distinct(idx, 2, idx.len() as int);
    lemma_occurrences_distinct(idx, 3, idx.len() as int);
    let n = idx.len() as int;
    let hn = h.len() as int;
    assert forall|k: usize| k < 4 implies occurrences(h, k, hn) + occurrences(idx, k, n) == 1 by {
        lemma_hidden_occurrences(idx, 4, k);
        lemma_occurrences_distinct(idx, k, n);
        if idx.contains(k) {
            let j = choose|j: int| 0 <= j < n && idx[j] == k;
            assert(exists|j2: int| 0 <= j2 < n && idx[j2] == k);
        } else {
            assert(!exists|j2: int| 0 <= j2 < n && idx[j2] == k);
        }
    }
    let t0 = attr_term(vals, 0);
    let t1 = attr_term(vals, 1);
    let t2 = attr_term(vals, 2);
    let t3 = attr_term(vals, 3);
    let a0 = occurrences(h, 0, hn);
    let a1 = occurrences(h, 1, hn);
    let a2 = occurrences(h, 2, hn);
    let a3 = occurrences(h, 3, hn);
    let b0 = occurrences(idx, 0, n);
    let b1 = occurrences(idx, 1, n);
    let b2 = occurrences(idx, 2, n);
    let b3 = occurrences(idx, 3, n);
    assert(a0 + b0 == 1 && a1 + b1 == 1 && a2 + b2 == 1 && a3 + b3 == 1);
    assert(a0 * t0 + a1 * t1 + a2 * t2 + a3 * t3 + (b0 * t0 + b1 * t1 + b2 * t2 + b3 * t3) == t0 + t1 + t2 + t3)
        by (nonlinear_arith)
        requires a0 + b0 == 1, a1 + b1 == 1, a2 + b2 == 1, a3 + b3 == 1;
}

proof fn lemma_cong_add_mul(x: int, y: int, u: int, v: int, g: int)
    requires
        x % (group_order() as int) == y % (group_order() as int),
        u % (group_order() as int) == v % (group_order() as int),
    ensures
        (x + u * g) % (group_order() as int) == (y + v * g) % (group_order() as int),
{
    let m = group_order() as int;
    vstd::arithmetic::div_mod::lemma_mul_mod_noop_left(u, g, m);
    vstd::arithmetic::div_mod::lemma_mul_mod_noop_left(v, g, m);
    vstd::arithmetic::div_mod::lemma_add_mod_noop(x, u * g, m);
    vstd::arithmetic::div_mod::lemma_add_mod_noop(y, v * g, m);
}

/// The value of an honest response modulo ℓ.
proof fn lemma_response_value(r: [u8; 32], resp: [u8; 32], c: int, a: int)
    requires
        resp@ == enc(sc(r) + ((c * a) % (group_order() as int))),
    ensures
        (sc(resp) as int) % (group_order() as int) == (sc(r) + c * a) % (group_order() as int),
{
    let m = group_order() as int;
    vstd::arithmetic::div_mod::lemma_mod_twice(sc(r) + (c * a) % m, m);
    vstd::arithmetic::div_mod::lemma_add_mod_noop_right(sc(r) as int, c * a, m);
}

proof fn lemma_response_sum(resp: Seq<[u8; 32]>, rs: Seq<[u8; 32]>, c: [u8; 32], vals: Seq<[u8; 32]>, hidden: Seq<usize>, n: int)
    requires
        0 <= n <= hidden.len(),
        n <= resp.len(),
        n <= rs.len(),
        forall|j: int| 0 <= j < n ==> (#[trigger] resp[j])@
            == enc(sc(rs[j]) + ((sc(c) * sc(vals[hidden[j] as int])) % group_order()) as int),
    ensures
        hidden_dlog(resp, hidden, n) % (group_order() as int)
            == (hidden_dlog(rs, hidden, n) + sc(c) * attr_sum(vals, hidden, n)) % (group_order() as int),
    decreases n,
{
    if n > 0 {
        lemma_response_sum(resp, rs, c, vals, hidden, n - 1);
        let k = n - 1;
        let a = sc(vals[hidden[k] as int]) as int;
        let g = gen_dlog(hidden[k]);
        assert(resp[k]@ == enc(sc(rs[k]) + ((sc(c) * a) % (group_order() as int))));
        lemma_response_value(rs[k], resp[k], sc(c) as int, a);
        let hr = hidden_dlog(rs, hidden, k);
        let ha = attr_sum(vals, hidden, k);
        lemma_cong_add_mul(hidden_dlog(resp, hidden, k), hr + sc(c) * ha, sc(resp[k]) as int, sc(rs[k]) + sc(c) * a, g);
        let cc = sc(c) as int;
        let r = sc(rs[k]) as int;
        assert(hr + cc * ha + (r + cc * a) * g == (hr + r * g) + cc * (ha + a * g)) by (nonlinear_arith);
    }
}

proof fn lemma_disclosed_attr_sum(ds: Seq<(usize, [u8; 32])>, vals: Seq<[u8; 32]>, idx: Seq<usize>, n: int)
    requires
        0 <= n <= ds.len(),
        disclosed_indices(ds) == idx,
        forall|j: int| 0 <= j < ds.len() ==> (#[trigger] ds[j]).1 == vals[idx[j] as int],
    ensures
        disclosed_dlog(ds, n) == attr_sum(vals, idx, n),
    decreases n,
{
    if n > 0 {
        lemma_disclosed_attr_sum(ds, vals, idx, n - 1);
        assert(idx[n - 1] == ds[n - 1].0);
    }
}

/// A presentation made honestly (as `create_presentation` makes it) from a
/// credential whose commitment commits to its attributes under `pedersen`
/// and whose issuer signature verifies, disclosing each attribute at most
/// once, verifies.
#[verifier::spinoff_prover]
#[verifier::rlimit(50)]
pub proof fn law_honest_presentation_verifies(cred: Credential, idx: Seq<usize>, pedersen: PedersenParams, p: Presentation)
    requires
        pedersen.wf(),
        is_scalar(cred.blinding),
        forall|q: int| 0 <= q < 4 ==> is_scalar(#[trigger] cred.attributes.scalars_spec()[q]),
        forall|j: int| 0 <= j < idx.len() ==> #[trigger] idx[j] < 4,
        forall|a: int, b: int| 0 <= a < b < idx.len() ==> idx[a] != idx[b],
        credential_signature_valid(cred.commitment@, cred.signature_s, cred.signature_e, cred.issuer_pk@),
        ristretto_valid(cred.commitment@),
        encodes(cred.commitment@, pedersen.commit_vector_dlog(cred.attributes.scalars_spec(), cred.blinding) % (group_order() as int)),
        p.commitment == cred.commitment,
        p.issuer_pk == cred.issuer_pk,
        p.cred_signature_s == cred.signature_s,
        p.cred_signature_e == cred.signature_e,
        disclosed_indices(p.disclosed@) == idx,
        forall|j: int| 0 <= j < p.disclosed@.len() ==>
            (#[trigger] p.disclosed@[j]).1 == cred.attributes.scalars_spec()[idx[j] as int],
        is_scalar(p.proof_challenge),
        p.proof_challenge@ == presentation_challenge(cred.commitment@, p.proof_commitment@, p.disclosed@, cred.issuer_pk@),
        exists|rs: Seq<[u8; 32]>| #[trigger] honest_responses(p.proof_response@, rs, p.proof_challenge,
            cred.attributes.scalars_spec(), hidden_indices(idx), cred.blinding)
            && p.proof_commitment@ == proof_commitment_of(rs, hidden_indices(idx), pedersen.h@),
    ensures
        presentation_checkable(p),
        presentation_valid(p, pedersen),
{
    let m = group_order() as int;
    let vals = cred.attributes.scalars_spec();
    let rs = choose|rs: Seq<[u8; 32]>| #[trigger] honest_responses(p.proof_response@, rs, p.proof_challenge,
        vals, hidden_indices(idx), cred.blinding)
        && p.proof_commitment@ == proof_commitment_of(rs, hidden_indices(idx), pedersen.h@);
    let h = hidden_indices(idx);
    let n = h.len() as int;
    let resp = p.proof_response@;
    let c = sc(p.proof_challenge) as int;
    let hd = spec_dlog(pedersen.h@);
    let dc = spec_dlog(cred.commitment@);
    let ds = p.disclosed@;
    assert(ds.len() == idx.len());
    // The commitment's discrete log.
    let v = pedersen.commit_vector_dlog(vals, cred.blinding);
    assert(v == attr_term(vals, 0) + attr_term(vals, 1) + attr_term(vals, 2) + attr_term(vals, 3) + sc(cred.blinding) * hd) by {
        reveal_with_fuel(crate::group::msm_dlog, 6);
        let ks = vals.push(cred.blinding);
        let ps = Seq::new(vals.len(), |i: int| vector_generator(i as nat)).push(pedersen.h@);
        assert(ks[0] == vals[0] && ks[1] == vals[1] && ks[2] == vals[2] && ks[3] == vals[3] && ks[4] == cred.blinding);
        assert(ps[0] == vector_generator(0) && ps[1] == vector_generator(1) && ps[2] == vector_generator(2)
            && ps[3] == vector_generator(3) && ps[4] == pedersen.h@);
    }
    lemma_partition(vals, idx);
    let ha = attr_sum(vals, h, n);
    let da = attr_sum(vals, idx, idx.len() as int);
    lemma_disclosed_attr_sum(ds, vals, idx, ds.len() as int);
    assert(disclosed_dlog(ds, ds.len() as int) == da);
    // The responses.
    assert forall|j: int| 0 <= j < n implies (#[trigger] resp[j])@
        == enc(sc(rs[j]) + ((sc(p.proof_challenge) * sc(vals[h[j] as int])) % group_order()) as int) by {}
    lemma_response_sum(resp, rs, p.proof_challenge, vals, h, n);
    lemma_response_value(rs[n], resp[n], c, sc(cred.blinding) as int);
    let t1 = hidden_dlog(resp, h, n);
    let t1p = hidden_dlog(rs, h, n) + c * ha;
    let sb = sc(resp[n]) as int;
    let rb = sc(rs[n]) as int;
    let b = sc(cred.blinding) as int;
    // T2 = s_b·dlog(H) ≡ (r_b + c·b)·dlog(H)
    vstd::arithmetic::div_mod::lemma_mul_mod_noop_left(sb, hd, m);
    vstd::arithmetic::div_mod::lemma_mul_mod_noop_left(rb + c * b, hd, m);
    // T3 = c·(dC − D) ≡ c·(V − D)
    vstd::arithmetic::div_mod::lemma_small_mod(dc as nat, group_order());
    vstd::arithmetic::div_mod::lemma_sub_mod_noop(v, da, m);
    vstd::arithmetic::div_mod::lemma_sub_mod_noop(dc, da, m);
    vstd::arithmetic::div_mod::lemma_mod_twice(v, m);
    vstd::arithmetic::div_mod::lemma_mul_mod_noop_right(c, dc - da, m);
    vstd::arithmetic::div_mod::lemma_mul_mod_noop_right(c, v - da, m);
    let t2 = sb * hd;
    let t2p = (rb + c * b) * hd;
    let t3 = c * (dc - da);
    let t3p = c * (v - da);
    assert(t1 % m == t1p % m);
    assert(t2 % m == t2p % m);
    assert(t3 % m == t3p % m);
    vstd::arithmetic::div_mod::lemma_add_mod_noop(t1, t2, m);
    vstd::arithmetic::div_mod::lemma_add_mod_noop(t1p, t2p, m);
    vstd::arithmetic::div_mod::lemma_sub_mod_noop(t1 + t2, t3, m);
    vstd::arithmetic::div_mod::lemma_sub_mod_noop(t1p + t2p, t3p, m);
    let hr = hidden_dlog(rs, h, n);
    let s4 = attr_term(vals, 0) + attr_term(vals, 1) + attr_term(vals, 2) + attr_term(vals, 3);
    assert(t1p + t2p - t3p == hr + rb * hd) by (nonlinear_arith)
        requires
            t1p == hr + c * ha,
            t2p == (rb + c * b) * hd,
            t3p == c * (v - da),
            v == s4 + b * hd,
            ha + da == s4;
    assert(recomputed_dlog(p, pedersen.h@) == t1 + t2 - t3);
    assert(recomputed_commitment(p, pedersen.h@) == p.proof_commitment@);
    assert forall|j: int| 0 <= j <= n implies is_scalar(#[trigger] resp[j]) by {}
    assert forall|j: int| 0 <= j < ds.len() implies is_scalar(#[trigger] ds[j].1) by {
        assert(ds[j].1 == vals[idx[j] as int]);
    }
    assert forall|j: int| 0 <= j < ds.len() implies (#[trigger] ds[j]).0 < 4 by {
        assert(idx[j] == ds[j].0);
    }
}

} // verus!
