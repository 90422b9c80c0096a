//! The credential issuer: it checks a holder's attributes, commits to them
//! with a Pedersen vector commitment and signs the commitment (Schnorr).

use vstd::prelude::*;
use vstd::string::*;
use crate::bytes::le_nat;
use crate::hashing::spec_sha512;
use crate::scalar::{enc, sc, is_scalar, group_order};
use crate::group::{ristretto_valid, spec_basepoint_mul, spec_point_mul, spec_point_sub};
use crate::primitives::pedersen::PedersenParams;
use crate::credential::credential::{Attributes, Credential};

verus! {

broadcast use crate::scalar::lemma_enc;

/// An issuer: its signing key and the commitment parameters.
pub struct Issuer {
    secret: [u8; 32],
    /// The public verification key.
    pub public: [u8; 32],
    /// Commitment parameters for attribute vectors.
    pub pedersen: PedersenParams,
}

/// The challenge of a credential signature.
pub open spec fn credential_challenge(r: Seq<u8>, commitment: Seq<u8>, issuer_pk: Seq<u8>) -> Seq<u8> {
    enc(le_nat(spec_sha512("specter-credential-sig:".spec_bytes() + r + commitment + issuer_pk)) as int)
}

/// Whether `(s, e)` is the issuer's signature on `commitment`: with
/// `R' = s·B − e·PK`, the challenge of `R'` is `e`.
pub open spec fn credential_signature_valid(commitment: Seq<u8>, s: [u8; 32], e: [u8; 32], issuer_pk: Seq<u8>) -> bool {
    &&& ristretto_valid(issuer_pk)
    &&& is_scalar(s)
    &&& is_scalar(e)
    &&& credential_challenge(spec_point_sub(spec_basepoint_mul(s@), spec_point_mul(e@, issuer_pk)), commitment, issuer_pk) == e@
}

pub(crate) fn hash_credential_challenge(r: &[u8; 32], commitment: &[u8; 32], issuer_pk: &[u8; 32]) -> (e: [u8; 32])
    ensures
        is_scalar(e),
        e@ == credential_challenge(r@, commitment@, issuer_pk@),
{
    let mut buf: Vec<u8> = Vec::new();
    crate::bytes::append_bytes(&mut buf, "specter-credential-sig:".as_bytes());
    crate::bytes::append_bytes(&mut buf, r);
    crate::bytes::append_bytes(&mut buf, commitment);
    crate::bytes::append_bytes(&mut buf, issuer_pk);
    let h = crate::hashing::sha512(buf.as_slice());
    crate::group::scalar_from_digest(&h)
}

/// A copy of attributes.
pub fn copy_attributes(a: &Attributes) -> (r: Attributes)
    ensures
        r.kyc_passed == a.kyc_passed,
        r.not_sanctioned == a.not_sanctioned,
        r.jurisdiction@ == a.jurisdiction@,
        r.age_over_18 == a.age_over_18,
        r.expires_at == a.expires_at,
{
    Attributes {
        kyc_passed: a.kyc_passed,
        not_sanctioned: a.not_sanctioned,
        jurisdiction: a.jurisdiction.clone(),
        age_over_18: a.age_over_18,
        expires_at: a.expires_at,
    }
}

impl Issuer {
    pub closed spec fn sk(&self) -> [u8; 32] {
        self.secret
    }

    pub closed spec fn pk(&self) -> [u8; 32] {
        self.public
    }

    pub closed spec fn params(&self) -> PedersenParams {
        self.pedersen
    }

    /// The key pair matches and the parameters hold group elements.
    pub open spec fn wf(&self) -> bool {
        &&& is_scalar(self.sk())
        &&& self.pk()@ == spec_basepoint_mul(self.sk()@)
        &&& ristretto_valid(self.pk()@)
        &&& self.params().wf()
    }

    /// An issuer with a fresh random key and the standard generators.
    pub fn new() -> (i: Self)
        ensures
            i.wf(),
            i.params().g@ == crate::primitives::pedersen::generator_g(),
            i.params().h@ == crate::primitives::pedersen::generator_h(),
    {
        let secret = crate::group::random_scalar();
        let public = crate::group::basepoint_mul(secret);
        Issuer { secret, public, pedersen: PedersenParams::new() }
    }

    /// The public key.
    pub fn public_key(&self) -> (pk: [u8; 32])
        ensures
            pk == self.pk(),
    {
        self.public
    }

    /// The commitment parameters.
    pub fn params_of(&self) -> (p: PedersenParams)
        ensures
            p == self.params(),
    {
        self.pedersen
    }

    /// Issues a credential: a commitment to the attributes with a fresh
    /// blinding factor, signed with a fresh nonce.
    pub fn issue(&self, attributes: &Attributes) -> (c: Credential)
        requires
            self.wf(),
        ensures
            c.issuer_pk == self.pk(),
            is_scalar(c.blinding),
            c.commitment@ == self.params().spec_commit_vector(attributes.scalars_spec(), c.blinding),
            crate::group::encodes(c.commitment@, self.params().commit_vector_dlog(attributes.scalars_spec(), c.blinding) % (group_order() as int)),
            c.attributes.kyc_passed == attributes.kyc_passed,
            c.attributes.not_sanctioned == attributes.not_sanctioned,
            c.attributes.jurisdiction@ == attributes.jurisdiction@,
            c.attributes.age_over_18 == attributes.age_over_18,
            c.attributes.expires_at == attributes.expires_at,
            is_scalar(c.signature_s),
            exists|k: [u8; 32]| is_scalar(k) && c.signature_e@ == #[trigger] credential_challenge(spec_basepoint_mul(k@), c.commitment@, self.pk()@)
                && c.signature_s@ == enc(sc(k) + ((sc(c.signature_e) * sc(self.sk())) % group_order()) as int),
    {
        let blinding = crate::group::random_scalar();
        let values = attributes.to_scalars();
        let commitment = self.pedersen.commit_vector(values.as_slice(), &blinding);
        let k = crate::group::random_scalar();
        let r = crate::group::basepoint_mul(k);
        let e = hash_credential_challenge(&r, &commitment, &self.public);
        let s = crate::group::schnorr_response(k, e, self.secret);
        let c = Credential {
            commitment,
            blinding,
            attributes: copy_attributes(attributes),
            signature_s: s,
            signature_e: e,
            issuer_pk: self.public,
        };
        assert(is_scalar(k) && c.signature_e@ == credential_challenge(spec_basepoint_mul(k@), c.commitment@, self.pk()@));
        c
    }

    /// Checks a credential's signature.
    pub fn verify_credential(&self, credential: &Credential) -> (ok: bool)
        ensures
            ok == credential_signature_valid(credential.commitment@, credential.signature_s, credential.signature_e, credential.issuer_pk@),
    {
        verify_credential_signature(credential)
    }
}

/// Checks a credential's Schnorr signature under the key it names.
pub fn verify_credential_signature(credential: &Credential) -> (ok: bool)
    ensures
        ok == credential_signature_valid(credential.commitment@, credential.signature_s, credential.signature_e, credential.issuer_pk@),
{
    check_signature(&credential.commitment, &credential.signature_s, &credential.signature_e, &credential.issuer_pk)
}

/// Checks an issuer signature `(s, e)` on a commitment.
pub fn check_signature(commitment: &[u8; 32], s: &[u8; 32], e: &[u8; 32], issuer_pk: &[u8; 32]) -> (ok: bool)
    ensures
        ok == credential_signature_valid(commitment@, *s, *e, issuer_pk@),
{
    if !crate::group::point_is_valid(issuer_pk) {
        return false;
    }
    let s = match crate::group::scalar_from_canonical(*s) {
        Some(x) => x,
        None => return false,
    };
    let e = match crate::group::scalar_from_canonical(*e) {
        Some(x) => x,
        None => return false,
    };
    let sb = crate::group::basepoint_mul(s);
    let epk = crate::group::point_mul(e, *issuer_pk);
    let r_prime = crate::group::point_sub(sb, epk);
    let expected = hash_credential_challenge(&r_prime, commitment, issuer_pk);
    crate::bytes::bytes32_eq(&expected, &e)
}

} // verus!
