//! The portable binary format of proof-carrying tokens.
//!
//! Layout: the magic `SPCT`, a version byte, the fixed fields (ids,
//! commitments, scalars, counters and the fold proof, 569 bytes in all
//! with the header), then four optional sections, each introduced by a
//! flag byte (1 = present): credential, presentation, delay proof, bond
//! owner. Group elements and scalars are written as their canonical
//! 32-byte encodings; integers little-endian; booleans as 0 or 1; the
//! jurisdiction as a length byte and its UTF-8 bytes.

use vstd::prelude::*;
use vstd::string::*;
use vstd::bytes::{spec_u32_from_le_bytes, spec_u32_to_le_bytes, spec_u64_from_le_bytes, spec_u64_to_le_bytes};
use crate::bytes::le_nat;
use crate::scalar::group_order;
use crate::group::ristretto_valid;
use crate::blind::types::BlindSignature;
use crate::credential::credential::{Attributes, Credential};
use crate::credential::presentation::Presentation;
use crate::offline::vdf::VdfProof;
use crate::pct::token::{FoldProof, ProofCarryingToken, ValueProof};
use crate::pct::secure_store::{EncryptedData, SecureStoreError, spec_aead_seal, spec_derive_key, decrypt_result};

verus! {

/// Errors of decoding.
#[derive(Debug, PartialEq, Eq, Clone, Copy)]
pub enum SerdeError {
    /// The data ends before a field: `need` bytes would be required.
    BufferTooShort { need: usize, have: usize },
    /// The 32 bytes at `offset` do not encode a group element.
    InvalidPoint { offset: usize },
    /// The 32 bytes at `offset` are not a canonical scalar.
    InvalidScalar { offset: usize },
    /// The data does not start with the magic bytes.
    InvalidMagic,
    /// The version byte is not the supported version.
    UnsupportedVersion(u8),
    /// The token's value is zero.
    ZeroValue,
    /// The transfer count exceeds the recursion bound.
    TransferCountExceedsBound,
    /// The jurisdiction holds characters other than letters, digits, `-`, `_`.
    InvalidJurisdiction,
    /// Encrypted storage failed.
    Storage(SecureStoreError),
}

/// The format version.
pub const VERSION: u8 = 1;

/// Offset of the owner secret in an encoded token.
pub const OWNER_SECRET_OFFSET: usize = 205;

/// Offset of the credential flag in an encoded token.
pub const CRED_FLAG_OFFSET: usize = 569;

// ─── Views ─────────────────────────────────────────────────────────────

/// A credential as the format sees it.
#[verifier::ext_equal]
pub struct CredentialView {
    pub commitment: Seq<u8>,
    pub blinding: Seq<u8>,
    pub kyc_passed: bool,
    pub not_sanctioned: bool,
    pub jurisdiction: Seq<char>,
    pub age_over_18: bool,
    pub expires_at: u64,
    pub signature_s: Seq<u8>,
    pub signature_e: Seq<u8>,
    pub issuer_pk: Seq<u8>,
}

/// A presentation as the format sees it.
#[verifier::ext_equal]
pub struct PresentationView {
    pub commitment: Seq<u8>,
    pub issuer_pk: Seq<u8>,
    pub cred_signature_s: Seq<u8>,
    pub cred_signature_e: Seq<u8>,
    pub disclosed: Seq<(usize, Seq<u8>)>,
    pub proof_commitment: Seq<u8>,
    pub proof_response: Seq<Seq<u8>>,
    pub proof_challenge: Seq<u8>,
}

/// The fixed fields of a token (everything before the optional sections).
#[verifier::ext_equal]
pub struct FixedView {
    pub token_id: Seq<u8>,
    pub value: u64,
    pub value_commitment: Seq<u8>,
    pub vp_commitment: Seq<u8>,
    pub vp_response: Seq<u8>,
    pub sig_s: Seq<u8>,
    pub sig_e: Seq<u8>,
    pub owner_secret: Seq<u8>,
    pub hash_chain_head: Seq<u8>,
    pub transfer_count: u32,
    pub recursion_bound: u32,
    pub fold_s: Seq<u8>,
    pub fold_e: Seq<u8>,
    pub fold_r: Seq<u8>,
    pub fold_pk: Seq<u8>,
    pub fold_state_hash: Seq<u8>,
    pub fold_pk_chain_hash: Seq<u8>,
    pub fold_genesis_state_hash: Seq<u8>,
    pub fold_current_owner_hash: Seq<u8>,
    pub fold_steps: u32,
    pub genesis_owner_hash: Seq<u8>,
}

/// A token as the format sees it.
#[verifier::ext_equal]
pub struct TokenView {
    pub fixed: FixedView,
    pub credential: Option<CredentialView>,
    pub presentation: Option<PresentationView>,
    pub vdf: Option<(Seq<u8>, u64, Seq<u8>)>,
    pub bond_owner_id: Option<Seq<u8>>,
}

pub open spec fn credential_view(c: Credential) -> CredentialView {
    CredentialView {
        commitment: c.commitment@,
        blinding: c.blinding@,
        kyc_passed: c.attributes.kyc_passed,
        not_sanctioned: c.attributes.not_sanctioned,
        jurisdiction: c.attributes.jurisdiction@,
        age_over_18: c.attributes.age_over_18,
        expires_at: c.attributes.expires_at,
        signature_s: c.signature_s@,
        signature_e: c.signature_e@,
        issuer_pk: c.issuer_pk@,
    }
}

pub open spec fn presentation_view(p: Presentation) -> PresentationView {
    PresentationView {
        commitment: p.commitment@,
        issuer_pk: p.issuer_pk@,
        cred_signature_s: p.cred_signature_s@,
        cred_signature_e: p.cred_signature_e@,
        disclosed: disclosed_view(p.disclosed@),
        proof_commitment: p.proof_commitment@,
        proof_response: scalars_view(p.proof_response@),
        proof_challenge: p.proof_challenge@,
    }
}

pub open spec fn token_view(t: ProofCarryingToken) -> TokenView {
    TokenView {
        fixed: FixedView {
            token_id: t.token_id@,
            value: t.value,
            value_commitment: t.value_commitment@,
            vp_commitment: t.value_proof.commitment@,
            vp_response: t.value_proof.response@,
            sig_s: t.mint_signature.s@,
            sig_e: t.mint_signature.e@,
            owner_secret: t.owner_secret@,
            hash_chain_head: t.hash_chain_head@,
            transfer_count: t.transfer_count,
            recursion_bound: t.recursion_bound,
            fold_s: t.fold_proof.s@,
            fold_e: t.fold_proof.e@,
            fold_r: t.fold_proof.r@,
            fold_pk: t.fold_proof.pk@,
            fold_state_hash: t.fold_proof.state_hash@,
            fold_pk_chain_hash: t.fold_proof.pk_chain_hash@,
            fold_genesis_state_hash: t.fold_proof.genesis_state_hash@,
            fold_current_owner_hash: t.fold_proof.current_owner_hash@,
            fold_steps: t.fold_proof.steps,
            genesis_owner_hash: t.genesis_owner_hash@,
        },
        credential: opt_credential_view(t.credential),
        presentation: opt_presentation_view(t.presentation),
        vdf: opt_vdf_view(t.vdf_proof),
        bond_owner_id: opt_bond_view(t.bond_owner_id),
    }
}

// ─── Encoding ──────────────────────────────────────────────────────────

/// The magic bytes `SPCT`.
pub open spec fn magic() -> Seq<u8> {
    seq![0x53u8, 0x50u8, 0x43u8, 0x54u8]
}

pub open spec fn bool_byte(b: bool) -> u8 {
    if b { 1 } else { 0 }
}

pub open spec fn fixed_bytes(f: FixedView) -> Seq<u8> {
    magic() + seq![VERSION] + f.token_id + spec_u64_to_le_bytes(f.value) + f.value_commitment
        + f.vp_commitment + f.vp_response + f.sig_s + f.sig_e + f.owner_secret + f.hash_chain_head
        + spec_u32_to_le_bytes(f.transfer_count) + spec_u32_to_le_bytes(f.recursion_bound)
        + f.fold_s + f.fold_e + f.fold_r + f.fold_pk + f.fold_state_hash + f.fold_pk_chain_hash
        + f.fold_genesis_state_hash + f.fold_current_owner_hash + spec_u32_to_le_bytes(f.fold_steps)
        + f.genesis_owner_hash
}

pub open spec fn jurisdiction_bytes(j: Seq<char>) -> Seq<u8> {
    vstd::utf8::encode_utf8(j)
}

pub open spec fn cred_bytes(c: Option<CredentialView>) -> Seq<u8> {
    match c {
        None => seq![0u8],
        Some(c) => seq![1u8] + c.commitment + c.blinding + seq![bool_byte(c.kyc_passed), bool_byte(c.not_sanctioned),
            (jurisdiction_bytes(c.jurisdiction).len() % 256) as u8] + jurisdiction_bytes(c.jurisdiction)
            + seq![bool_byte(c.age_over_18)] + spec_u64_to_le_bytes(c.expires_at) + c.signature_s + c.signature_e + c.issuer_pk,
    }
}

pub open spec fn disclosed_bytes(d: Seq<(usize, Seq<u8>)>) -> Seq<u8>
    decreases d.len(),
{
    if d.len() == 0 {
        Seq::empty()
    } else {
        seq![(d[0].0 % 256) as u8] + d[0].1 + disclosed_bytes(d.drop_first())
    }
}

pub open spec fn responses_bytes(r: Seq<Seq<u8>>) -> Seq<u8>
    decreases r.len(),
{
    if r.len() == 0 {
        Seq::empty()
    } else {
        r[0] + responses_bytes(r.drop_first())
    }
}

pub open spec fn pres_bytes(p: Option<PresentationView>) -> Seq<u8> {
    match p {
        None => seq![0u8],
        Some(p) => seq![1u8] + p.commitment + p.issuer_pk + p.cred_signature_s + p.cred_signature_e
            + seq![(p.disclosed.len() % 256) as u8] + disclosed_bytes(p.disclosed) + p.proof_commitment
            + seq![(p.proof_response.len() % 256) as u8] + responses_bytes(p.proof_response) + p.proof_challenge,
    }
}

pub open spec fn vdf_bytes(v: Option<(Seq<u8>, u64, Seq<u8>)>) -> Seq<u8> {
    match v {
        None => seq![0u8],
        Some(v) => seq![1u8] + v.0 + spec_u64_to_le_bytes(v.1) + v.2,
    }
}

pub open spec fn bond_bytes(b: Option<Seq<u8>>) -> Seq<u8> {
    match b {
        None => seq![0u8],
        Some(b) => seq![1u8] + b,
    }
}

/// The encoding of a token.
pub open spec fn token_bytes(t: TokenView) -> Seq<u8> {
    fixed_bytes(t.fixed) + cred_bytes(t.credential) + pres_bytes(t.presentation) + vdf_bytes(t.vdf) + bond_bytes(t.bond_owner_id)
}

// ─── Decoding ──────────────────────────────────────────────────────────

/// The error for data that ends before `need` bytes.
pub open spec fn short(need: int, d: Seq<u8>) -> SerdeError {
    SerdeError::BufferTooShort { need: if need > usize::MAX { usize::MAX } else { need as usize }, have: d.len() as usize }
}

/// The 32-byte field at `off`.
pub open spec fn field_at(d: Seq<u8>, off: int) -> Seq<u8> {
    d.subrange(off, off + 32)
}

pub open spec fn canonical(b: Seq<u8>) -> bool {
    le_nat(b) < group_order()
}

/// The text that lossy UTF-8 decoding gives for bytes that are not valid
/// UTF-8 (invalid sequences replaced by U+FFFD).
pub uninterp spec fn spec_utf8_lossy(b: Seq<u8>) -> Seq<char>;

/// Lossy UTF-8 decoding: valid UTF-8 decodes as it is.
pub open spec fn lossy_text(b: Seq<u8>) -> Seq<char> {
    if vstd::utf8::valid_utf8(b) {
        vstd::utf8::decode_utf8(b)
    } else {
        spec_utf8_lossy(b)
    }
}

/// Whether a character is alphabetic or numeric in Unicode's sense.
pub uninterp spec fn spec_is_alphanumeric(c: char) -> bool;

/// The characters a jurisdiction may hold.
pub open spec fn jurisdiction_ok(j: Seq<char>) -> bool {
    forall|i: int| 0 <= i < j.len() ==> spec_is_alphanumeric(#[trigger] j[i]) || j[i] == '-' || j[i] == '_'
}

/// Decoding of the fixed part.
#[verifier::opaque]
pub open spec fn parse_fixed(d: Seq<u8>) -> Result<FixedView, SerdeError> {
    let n = d.len();
    if n < 4 { Err(short(4, d)) }
    else if d.subrange(0, 4) != magic() { Err(SerdeError::InvalidMagic) }
    else if n < 5 { Err(short(5, d)) }
    else if d[4] != VERSION { Err(SerdeError::UnsupportedVersion(d[4])) }
    else if n < 37 { Err(short(37, d)) }
    else if n < 45 { Err(short(45, d)) }
    else if spec_u64_from_le_bytes(d.subrange(37, 45)) == 0 { Err(SerdeError::ZeroValue) }
    else if n < 77 { Err(short(77, d)) }
    else if !ristretto_valid(field_at(d, 45)) { Err(SerdeError::InvalidPoint { offset: 45 }) }
    else if n < 109 { Err(short(109, d)) }
    else if !ristretto_valid(field_at(d, 77)) { Err(SerdeError::InvalidPoint { offset: 77 }) }
    else if n < 141 { Err(short(141, d)) }
    else if !canonical(field_at(d, 109)) { Err(SerdeError::InvalidScalar { offset: 109 }) }
    else if n < 173 { Err(short(173, d)) }
    else if !canonical(field_at(d, 141)) { Err(SerdeError::InvalidScalar { offset: 141 }) }
    else if n < 205 { Err(short(205, d)) }
    else if !canonical(field_at(d, 173)) { Err(SerdeError::InvalidScalar { offset: 173 }) }
    else if n < 237 { Err(short(237, d)) }
    else if n < 269 { Err(short(269, d)) }
    else if n < 273 { Err(short(273, d)) }
    else if n < 277 { Err(short(277, d)) }
    else if spec_u32_from_le_bytes(d.subrange(269, 273)) > spec_u32_from_le_bytes(d.subrange(273, 277)) {
        Err(SerdeError::TransferCountExceedsBound)
    }
    else if n < 309 { Err(short(309, d)) }
    else if !canonical(field_at(d, 277)) { Err(SerdeError::InvalidScalar { offset: 277 }) }
    else if n < 341 { Err(short(341, d)) }
    else if !canonical(field_at(d, 309)) { Err(SerdeError::InvalidScalar { offset: 309 }) }
    else if n < 373 { Err(short(373, d)) }
    else if !ristretto_valid(field_at(d, 341)) { Err(SerdeError::InvalidPoint { offset: 341 }) }
    else if n < 405 { Err(short(405, d)) }
    else if !ristretto_valid(field_at(d, 373)) { Err(SerdeError::InvalidPoint { offset: 373 }) }
    else if n < 437 { Err(short(437, d)) }
    else if n < 469 { Err(short(469, d)) }
    else if n < 501 { Err(short(501, d)) }
    else if n < 533 { Err(short(533, d)) }
    else if n < 537 { Err(short(537, d)) }
    else if n < 569 { Err(short(569, d)) }
    else {
        Ok(FixedView {
            token_id: field_at(d, 5),
            value: spec_u64_from_le_bytes(d.subrange(37, 45)),
            value_commitment: field_at(d, 45),
            vp_commitment: field_at(d, 77),
            vp_response: field_at(d, 109),
            sig_s: field_at(d, 141),
            sig_e: field_at(d, 173),
            owner_secret: field_at(d, 205),
            hash_chain_head: field_at(d, 237),
            transfer_count: spec_u32_from_le_bytes(d.subrange(269, 273)),
            recursion_bound: spec_u32_from_le_bytes(d.subrange(273, 277)),
            fold_s: field_at(d, 277),
            fold_e: field_at(d, 309),
            fold_r: field_at(d, 341),
            fold_pk: field_at(d, 373),
            fold_state_hash: field_at(d, 405),
            fold_pk_chain_hash: field_at(d, 437),
            fold_genesis_state_hash: field_at(d, 469),
            fold_current_owner_hash: field_at(d, 501),
            fold_steps: spec_u32_from_le_bytes(d.subrange(533, 537)),
            genesis_owner_hash: field_at(d, 537),
        })
    }
}

/// Decoding of the credential section at `p`: the section and the
/// position after it.
#[verifier::opaque]
pub open spec fn parse_cred(d: Seq<u8>, p: int) -> Result<(Option<CredentialView>, int), SerdeError> {
    let n = d.len();
    if p + 1 > n { Err(short(p + 1, d)) }
    else if d[p] != 1 { Ok((None, p + 1)) }
    else {
        let q = p + 1;
        if q + 32 > n { Err(short(q + 32, d)) }
        else if !ristretto_valid(field_at(d, q)) { Err(SerdeError::InvalidPoint { offset: q as usize }) }
        else if q + 64 > n { Err(short(q + 64, d)) }
        else if !canonical(field_at(d, q + 32)) { Err(SerdeError::InvalidScalar { offset: (q + 32) as usize }) }
        else if q + 65 > n { Err(short(q + 65, d)) }
        else if q + 66 > n { Err(short(q + 66, d)) }
        else if q + 67 > n { Err(short(q + 67, d)) }
        else {
            let jl = d[q + 66] as int;
            let j0 = q + 67;
            if j0 + jl > n { Err(short(j0 + jl, d)) }
            else if !jurisdiction_ok(lossy_text(d.subrange(j0, j0 + jl))) { Err(SerdeError::InvalidJurisdiction) }
            else {
                let a = j0 + jl;
                if a + 1 > n { Err(short(a + 1, d)) }
                else if a + 9 > n { Err(short(a + 9, d)) }
                else if a + 41 > n { Err(short(a + 41, d)) }
                else if !canonical(field_at(d, a + 9)) { Err(SerdeError::InvalidScalar { offset: (a + 9) as usize }) }
                else if a + 73 > n { Err(short(a + 73, d)) }
                else if !canonical(field_at(d, a + 41)) { Err(SerdeError::InvalidScalar { offset: (a + 41) as usize }) }
                else if a + 105 > n { Err(short(a + 105, d)) }
                else if !ristretto_valid(field_at(d, a + 73)) { Err(SerdeError::InvalidPoint { offset: (a + 73) as usize }) }
                else {
                    Ok((Some(CredentialView {
                        commitment: field_at(d, q),
                        blinding: field_at(d, q + 32),
                        kyc_passed: d[q + 64] != 0,
                        not_sanctioned: d[q + 65] != 0,
                        jurisdiction: lossy_text(d.subrange(j0, j0 + jl)),
                        age_over_18: d[a] != 0,
                        expires_at: spec_u64_from_le_bytes(d.subrange(a + 1, a + 9)),
                        signature_s: field_at(d, a + 9),
                        signature_e: field_at(d, a + 41),
                        issuer_pk: field_at(d, a + 73),
                    }), a + 105))
                }
            }
        }
    }
}

/// Prepends decoded items to the result of decoding the rest.
pub open spec fn lift<T>(acc: Seq<T>, r: Result<(Seq<T>, int), SerdeError>) -> Result<(Seq<T>, int), SerdeError> {
    match r {
        Ok((xs, p)) => Ok((acc + xs, p)),
        Err(e) => Err(e),
    }
}

/// Decoding of `k` disclosed attributes starting at `p`.
pub open spec fn parse_disclosed(d: Seq<u8>, p: int, k: nat) -> Result<(Seq<(usize, Seq<u8>)>, int), SerdeError>
    decreases k,
{
    if k == 0 { Ok((Seq::empty(), p)) }
    else if p + 1 > d.len() { Err(short(p + 1, d)) }
    else if p + 33 > d.len() { Err(short(p + 33, d)) }
    else if !canonical(field_at(d, p + 1)) { Err(SerdeError::InvalidScalar { offset: (p + 1) as usize }) }
    else { lift(seq![(d[p] as usize, field_at(d, p + 1))], parse_disclosed(d, p + 33, (k - 1) as nat)) }
}

/// Decoding of `k` response scalars starting at `p`.
pub open spec fn parse_responses(d: Seq<u8>, p: int, k: nat) -> Result<(Seq<Seq<u8>>, int), SerdeError>
    decreases k,
{
    if k == 0 { Ok((Seq::empty(), p)) }
    else if p + 32 > d.len() { Err(short(p + 32, d)) }
    else if !canonical(field_at(d, p)) { Err(SerdeError::InvalidScalar { offset: p as usize }) }
    else { lift(seq![field_at(d, p)], parse_responses(d, p + 32, (k - 1) as nat)) }
}

/// Decoding of the presentation section at `p`.
#[verifier::opaque]
pub open spec fn parse_pres(d: Seq<u8>, p: int) -> Result<(Option<PresentationView>, int), SerdeError> {
    let n = d.len();
    if p + 1 > n { Err(short(p + 1, d)) }
    else if d[p] != 1 { Ok((None, p + 1)) }
    else {
        let q = p + 1;
        if q + 32 > n { Err(short(q + 32, d)) }
        else if !ristretto_valid(field_at(d, q)) { Err(SerdeError::InvalidPoint { offset: q as usize }) }
        else if q + 64 > n { Err(short(q + 64, d)) }
        else if !ristretto_valid(field_at(d, q + 32)) { Err(SerdeError::InvalidPoint { offset: (q + 32) as usize }) }
        else if q + 96 > n { Err(short(q + 96, d)) }
        else if !canonical(field_at(d, q + 64)) { Err(SerdeError::InvalidScalar { offset: (q + 64) as usize }) }
        else if q + 128 > n { Err(short(q + 128, d)) }
        else if !canonical(field_at(d, q + 96)) { Err(SerdeError::InvalidScalar { offset: (q + 96) as usize }) }
        else if q + 129 > n { Err(short(q + 129, d)) }
        else {
            match parse_disclosed(d, q + 129, d[q + 128] as nat) {
                Err(e) => Err(e),
                Ok((disclosed, a)) => {
                    if a + 32 > n { Err(short(a + 32, d)) }
                    else if !ristretto_valid(field_at(d, a)) { Err(SerdeError::InvalidPoint { offset: a as usize }) }
                    else if a + 33 > n { Err(short(a + 33, d)) }
                    else {
                        match parse_responses(d, a + 33, d[a + 32] as nat) {
                            Err(e) => Err(e),
                            Ok((responses, b)) => {
                                if b + 32 > n { Err(short(b + 32, d)) }
                                else if !canonical(field_at(d, b)) { Err(SerdeError::InvalidScalar { offset: b as usize }) }
                                else {
                                    Ok((Some(PresentationView {
                                        commitment: field_at(d, q),
                                        issuer_pk: field_at(d, q + 32),
                                        cred_signature_s: field_at(d, q + 64),
                                        cred_signature_e: field_at(d, q + 96),
                                        disclosed,
                                        proof_commitment: field_at(d, a),
                                        proof_response: responses,
                                        proof_challenge: field_at(d, b),
                                    }), b + 32))
                                }
                            },
                        }
                    }
                },
            }
        }
    }
}

/// Decoding of the delay-proof section at `p`.
pub open spec fn parse_vdf(d: Seq<u8>, p: int) -> Result<(Option<(Seq<u8>, u64, Seq<u8>)>, int), SerdeError> {
    let n = d.len();
    if p + 1 > n { Err(short(p + 1, d)) }
    else if d[p] != 1 { Ok((None, p + 1)) }
    else if p + 33 > n { Err(short(p + 33, d)) }
    else if p + 41 > n { Err(short(p + 41, d)) }
    else if p + 73 > n { Err(short(p + 73, d)) }
    else { Ok((Some((field_at(d, p + 1), spec_u64_from_le_bytes(d.subrange(p + 33, p + 41)), field_at(d, p + 41))), p + 73)) }
}

/// Decoding of the bond section at `p`.
pub open spec fn parse_bond(d: Seq<u8>, p: int) -> Result<(Option<Seq<u8>>, int), SerdeError> {
    let n = d.len();
    if p + 1 > n { Err(short(p + 1, d)) }
    else if d[p] != 1 { Ok((None, p + 1)) }
    else if p + 33 > n { Err(short(p + 33, d)) }
    else { Ok((Some(field_at(d, p + 1)), p + 33)) }
}

/// Decoding of a whole token.
pub open spec fn spec_deserialize(d: Seq<u8>) -> Result<TokenView, SerdeError> {
    match parse_fixed(d) {
        Err(e) => Err(e),
        Ok(fixed) => match parse_cred(d, 569) {
            Err(e) => Err(e),
            Ok((credential, p1)) => match parse_pres(d, p1) {
                Err(e) => Err(e),
                Ok((presentation, p2)) => match parse_vdf(d, p2) {
                    Err(e) => Err(e),
                    Ok((vdf, p3)) => match parse_bond(d, p3) {
                        Err(e) => Err(e),
                        Ok((bond_owner_id, _p4)) => Ok(TokenView { fixed, credential, presentation, vdf, bond_owner_id }),
                    },
                },
            },
        },
    }
}

/// A credential section's view.
pub open spec fn opt_credential_view(c: Option<Credential>) -> Option<CredentialView> {
    match c {
        Some(c) => Some(credential_view(c)),
        None => None,
    }
}

/// A presentation section's view.
pub open spec fn opt_presentation_view(p: Option<Presentation>) -> Option<PresentationView> {
    match p {
        Some(p) => Some(presentation_view(p)),
        None => None,
    }
}

/// A delay-proof section's view.
pub open spec fn opt_vdf_view(v: Option<VdfProof>) -> Option<(Seq<u8>, u64, Seq<u8>)> {
    match v {
        Some(v) => Some((v.seed@, v.iterations, v.output@)),
        None => None,
    }
}

/// A bond section's view.
pub open spec fn opt_bond_view(b: Option<[u8; 32]>) -> Option<Seq<u8>> {
    match b {
        Some(b) => Some(b@),
        None => None,
    }
}

/// The characters a jurisdiction may hold.
pub open spec fn jurisdiction_char_ok(c: char) -> bool {
    spec_is_alphanumeric(c) || c == '-' || c == '_'
}

// ─── Outside calls ─────────────────────────────────────────────────────

/// Calls `String::from_utf8_lossy`. Claims: for valid UTF-8 the text is
/// the decoded text itself; otherwise a function of the bytes alone (the
/// replacement of invalid sequences is not stated).
#[verifier::external_body]
fn utf8_lossy(b: &[u8]) -> (r: String)
    ensures
        vstd::utf8::valid_utf8(b@) ==> r@ == vstd::utf8::decode_utf8(b@),
        !vstd::utf8::valid_utf8(b@) ==> r@ == spec_utf8_lossy(b@),
{
    String::from_utf8_lossy(b).into_owned()
}

/// Calls `char::is_alphanumeric`. Claims: the answer is a function of the
/// character alone.
#[verifier::external_body]
fn char_is_alphanumeric(c: char) -> (r: bool)
    ensures
        r == spec_is_alphanumeric(c),
{
    c.is_alphanumeric()
}

// ─── Reading ───────────────────────────────────────────────────────────

/// Reads `len` bytes at `*pos`, advancing `*pos`.
fn read_bytes(data: &[u8], pos: &mut usize, len: usize) -> (r: Result<Vec<u8>, SerdeError>)
    requires
        *old(pos) <= data@.len(),
    ensures
        match r {
            Ok(v) => *old(pos) + len <= data@.len() && v@ == data@.subrange(*old(pos) as int, *old(pos) + len)
                && *final(pos) == *old(pos) + len,
            Err(e) => *old(pos) + len > data@.len() && e == short(*old(pos) + len, data@) && *final(pos) == *old(pos),
        },
{
    let start = *pos;
    if len > data.len() - start {
        return Err(SerdeError::BufferTooShort { need: start.saturating_add(len), have: data.len() });
    }
    let mut v: Vec<u8> = Vec::new();
    let mut i: usize = 0;
    while i < len
        invariant
            start + len <= data.len(),
            0 <= i <= len,
            v@ == data@.subrange(start as int, start + i),
        decreases len - i,
    {
        v.push(data[start + i]);
        i = i + 1;
        assert(v@ =~= data@.subrange(start as int, start + i));
    }
    *pos = start + len;
    Ok(v)
}

/// Reads one byte.
fn read_u8(data: &[u8], pos: &mut usize) -> (r: Result<u8, SerdeError>)
    requires
        *old(pos) <= data@.len(),
    ensures
        match r {
            Ok(b) => *old(pos) + 1 <= data@.len() && b == data@[*old(pos) as int] && *final(pos) == *old(pos) + 1,
            Err(e) => *old(pos) + 1 > data@.len() && e == short(*old(pos) + 1, data@) && *final(pos) == *old(pos),
        },
{
    let v = match read_bytes(data, pos, 1) {
        Ok(v) => v,
        Err(e) => return Err(e),
    };
    Ok(v[0])
}

/// Reads a little-endian `u32`.
fn read_u32(data: &[u8], pos: &mut usize) -> (r: Result<u32, SerdeError>)
    requires
        *old(pos) <= data@.len(),
    ensures
        match r {
            Ok(x) => *old(pos) + 4 <= data@.len()
                && x == spec_u32_from_le_bytes(data@.subrange(*old(pos) as int, *old(pos) + 4))
                && *final(pos) == *old(pos) + 4,
            Err(e) => *old(pos) + 4 > data@.len() && e == short(*old(pos) + 4, data@) && *final(pos) == *old(pos),
        },
{
    let v = match read_bytes(data, pos, 4) {
        Ok(v) => v,
        Err(e) => return Err(e),
    };
    Ok(vstd::bytes::u32_from_le_bytes(v.as_slice()))
}

/// Reads a little-endian `u64`.
fn read_u64(data: &[u8], pos: &mut usize) -> (r: Result<u64, SerdeError>)
    requires
        *old(pos) <= data@.len(),
    ensures
        match r {
            Ok(x) => *old(pos) + 8 <= data@.len()
                && x == spec_u64_from_le_bytes(data@.subrange(*old(pos) as int, *old(pos) + 8))
                && *final(pos) == *old(pos) + 8,
            Err(e) => *old(pos) + 8 > data@.len() && e == short(*old(pos) + 8, data@) && *final(pos) == *old(pos),
        },
{
    let v = match read_bytes(data, pos, 8) {
        Ok(v) => v,
        Err(e) => return Err(e),
    };
    Ok(vstd::bytes::u64_from_le_bytes(v.as_slice()))
}

/// Reads 32 bytes.
fn read_array32(data: &[u8], pos: &mut usize) -> (r: Result<[u8; 32], SerdeError>)
    requires
        *old(pos) <= data@.len(),
    ensures
        match r {
            Ok(a) => *old(pos) + 32 <= data@.len() && a@ == field_at(data@, *old(pos) as int)
                && *final(pos) == *old(pos) + 32,
            Err(e) => *old(pos) + 32 > data@.len() && e == short(*old(pos) + 32, data@) && *final(pos) == *old(pos),
        },
{
    let v = match read_bytes(data, pos, 32) {
        Ok(v) => v,
        Err(e) => return Err(e),
    };
    Ok(crate::bytes::to_array32(v.as_slice()))
}

/// Reads the encoding of a group element, which must decode.
fn read_point(data: &[u8], pos: &mut usize) -> (r: Result<[u8; 32], SerdeError>)
    requires
        *old(pos) <= data@.len(),
    ensures
        match r {
            Ok(a) => *old(pos) + 32 <= data@.len() && a@ == field_at(data@, *old(pos) as int)
                && ristretto_valid(a@) && *final(pos) == *old(pos) + 32,
            Err(e) => if *old(pos) + 32 > data@.len() {
                e == short(*old(pos) + 32, data@)
            } else {
                !ristretto_valid(field_at(data@, *old(pos) as int)) && e == (SerdeError::InvalidPoint { offset: *old(pos) })
            },
        },
{
    let a = match read_array32(data, pos) {
        Ok(a) => a,
        Err(e) => return Err(e),
    };
    if !crate::group::point_is_valid(&a) {
        return Err(SerdeError::InvalidPoint { offset: *pos - 32 });
    }
    Ok(a)
}

/// Reads a canonical scalar encoding.
fn read_scalar(data: &[u8], pos: &mut usize) -> (r: Result<[u8; 32], SerdeError>)
    requires
        *old(pos) <= data@.len(),
    ensures
        match r {
            Ok(a) => *old(pos) + 32 <= data@.len() && a@ == field_at(data@, *old(pos) as int)
                && canonical(a@) && *final(pos) == *old(pos) + 32,
            Err(e) => if *old(pos) + 32 > data@.len() {
                e == short(*old(pos) + 32, data@)
            } else {
                !canonical(field_at(data@, *old(pos) as int)) && e == (SerdeError::InvalidScalar { offset: *old(pos) })
            },
        },
{
    let a = match read_array32(data, pos) {
        Ok(a) => a,
        Err(e) => return Err(e),
    };
    match crate::group::scalar_from_canonical(a) {
        Some(s) => Ok(s),
        None => Err(SerdeError::InvalidScalar { offset: *pos - 32 }),
    }
}


/// Reads the fixed part of a token from the start of `data`; the
/// optional sections are left empty.
fn read_fixed(data: &[u8], pos: &mut usize) -> (r: Result<ProofCarryingToken, SerdeError>)
    requires
        *old(pos) == 0,
    ensures
        match r {
            Ok(t) => parse_fixed(data@) == Ok::<FixedView, SerdeError>(token_view(t).fixed) && *final(pos) == 569
                && 569 <= data@.len()
                && t.credential.is_none() && t.presentation.is_none() && t.vdf_proof.is_none() && t.bond_owner_id.is_none(),
            Err(e) => parse_fixed(data@) == Err::<FixedView, SerdeError>(e),
        },
{
    reveal(parse_fixed);
    let head = match read_bytes(data, pos, 4) { Ok(v) => v, Err(e) => return Err(e) };
    let expected: [u8; 4] = [0x53, 0x50, 0x43, 0x54];
    assert(expected@ =~= magic());
    if !crate::bytes::bytes_eq(head.as_slice(), &expected) {
        return Err(SerdeError::InvalidMagic);
    }
    let version = match read_u8(data, pos) { Ok(v) => v, Err(e) => return Err(e) };
    if version != VERSION {
        return Err(SerdeError::UnsupportedVersion(version));
    }
    let token_id = match read_array32(data, pos) { Ok(v) => v, Err(e) => return Err(e) };
    let value = match read_u64(data, pos) { Ok(v) => v, Err(e) => return Err(e) };
    if value == 0 {
        return Err(SerdeError::ZeroValue);
    }
    let value_commitment = match read_point(data, pos) { Ok(v) => v, Err(e) => return Err(e) };
    let vp_commitment = match read_point(data, pos) { Ok(v) => v, Err(e) => return Err(e) };
    let vp_response = match read_scalar(data, pos) { Ok(v) => v, Err(e) => return Err(e) };
    let sig_s = match read_scalar(data, pos) { Ok(v) => v, Err(e) => return Err(e) };
    let sig_e = match read_scalar(data, pos) { Ok(v) => v, Err(e) => return Err(e) };
    let owner_secret = match read_array32(data, pos) { Ok(v) => v, Err(e) => return Err(e) };
    let hash_chain_head = match read_array32(data, pos) { Ok(v) => v, Err(e) => return Err(e) };
    let transfer_count = match read_u32(data, pos) { Ok(v) => v, Err(e) => return Err(e) };
    let recursion_bound = match read_u32(data, pos) { Ok(v) => v, Err(e) => return Err(e) };
    if transfer_count > recursion_bound {
        return Err(SerdeError::TransferCountExceedsBound);
    }
    let fold_s = match read_scalar(data, pos) { Ok(v) => v, Err(e) => return Err(e) };
    let fold_e = match read_scalar(data, pos) { Ok(v) => v, Err(e) => return Err(e) };
    let fold_r = match read_point(data, pos) { Ok(v) => v, Err(e) => return Err(e) };
    let fold_pk = match read_point(data, pos) { Ok(v) => v, Err(e) => return Err(e) };
    let fold_state_hash = match read_array32(data, pos) { Ok(v) => v, Err(e) => return Err(e) };
    let fold_pk_chain_hash = match read_array32(data, pos) { Ok(v) => v, Err(e) => return Err(e) };
    let fold_genesis_state_hash = match read_array32(data, pos) { Ok(v) => v, Err(e) => return Err(e) };
    let fold_current_owner_hash = match read_array32(data, pos) { Ok(v) => v, Err(e) => return Err(e) };
    let fold_steps = match read_u32(data, pos) { Ok(v) => v, Err(e) => return Err(e) };
    let genesis_owner_hash = match read_array32(data, pos) { Ok(v) => v, Err(e) => return Err(e) };
    Ok(ProofCarryingToken {
        token_id,
        value,
        value_commitment,
        value_proof: ValueProof { commitment: vp_commitment, response: vp_response },
        mint_signature: BlindSignature { s: sig_s, e: sig_e },
        owner_secret,
        hash_chain_head,
        transfer_count,
        recursion_bound,
        fold_proof: FoldProof {
            s: fold_s,
            e: fold_e,
            r: fold_r,
            pk: fold_pk,
            state_hash: fold_state_hash,
            pk_chain_hash: fold_pk_chain_hash,
            genesis_state_hash: fold_genesis_state_hash,
            current_owner_hash: fold_current_owner_hash,
            steps: fold_steps,
        },
        genesis_owner_hash,
        credential: None,
        presentation: None,
        vdf_proof: None,
        bond_owner_id: None,
    })
}


/// Whether every character of a text may stand in a jurisdiction.
fn jurisdiction_valid(j: &str) -> (b: bool)
    ensures
        b == jurisdiction_ok(j@),
{
    let n = j.unicode_len();
    let mut i: usize = 0;
    while i < n
        invariant
            n == j@.len(),
            0 <= i <= n,
            forall|k: int| 0 <= k < i ==> jurisdiction_char_ok(#[trigger] j@[k]),
        decreases n - i,
    {
        let c = j.get_char(i);
        if !(char_is_alphanumeric(c) || c == '-' || c == '_') {
            assert(!jurisdiction_char_ok(j@[i as int]));
            return false;
        }
        i = i + 1;
    }
    true
}

/// Reads the credential section at `*pos`.
fn read_credential(data: &[u8], pos: &mut usize) -> (r: Result<Option<Credential>, SerdeError>)
    requires
        *old(pos) <= data@.len(),
    ensures
        match r {
            Ok(c) => parse_cred(data@, *old(pos) as int) == Ok::<(Option<CredentialView>, int), SerdeError>((opt_credential_view(c), *final(pos) as int))
                && *final(pos) <= data@.len(),
            Err(e) => parse_cred(data@, *old(pos) as int) == Err::<(Option<CredentialView>, int), SerdeError>(e),
        },
{
    reveal(parse_cred);
    let flag = match read_u8(data, pos) { Ok(v) => v, Err(e) => return Err(e) };
    if flag != 1 {
        return Ok(None);
    }
    let commitment = match read_point(data, pos) { Ok(v) => v, Err(e) => return Err(e) };
    let blinding = match read_scalar(data, pos) { Ok(v) => v, Err(e) => return Err(e) };
    let kyc_passed = match read_u8(data, pos) { Ok(v) => v, Err(e) => return Err(e) } != 0;
    let not_sanctioned = match read_u8(data, pos) { Ok(v) => v, Err(e) => return Err(e) } != 0;
    let jur_len = match read_u8(data, pos) { Ok(v) => v, Err(e) => return Err(e) };
    let jur_bytes = match read_bytes(data, pos, jur_len as usize) { Ok(v) => v, Err(e) => return Err(e) };
    let jurisdiction = utf8_lossy(jur_bytes.as_slice());
    if !jurisdiction_valid(jurisdiction.as_str()) {
        return Err(SerdeError::InvalidJurisdiction);
    }
    let age_over_18 = match read_u8(data, pos) { Ok(v) => v, Err(e) => return Err(e) } != 0;
    let expires_at = match read_u64(data, pos) { Ok(v) => v, Err(e) => return Err(e) };
    let signature_s = match read_scalar(data, pos) { Ok(v) => v, Err(e) => return Err(e) };
    let signature_e = match read_scalar(data, pos) { Ok(v) => v, Err(e) => return Err(e) };
    let issuer_pk = match read_point(data, pos) { Ok(v) => v, Err(e) => return Err(e) };
    Ok(Some(Credential {
        commitment,
        blinding,
        attributes: Attributes { kyc_passed, not_sanctioned, jurisdiction, age_over_18, expires_at },
        signature_s,
        signature_e,
        issuer_pk,
    }))
}

/// Reads the delay-proof section at `*pos`.
fn read_vdf(data: &[u8], pos: &mut usize) -> (r: Result<Option<VdfProof>, SerdeError>)
    requires
        *old(pos) <= data@.len(),
    ensures
        match r {
            Ok(v) => parse_vdf(data@, *old(pos) as int) == Ok::<(Option<(Seq<u8>, u64, Seq<u8>)>, int), SerdeError>((opt_vdf_view(v), *final(pos) as int))
                && *final(pos) <= data@.len(),
            Err(e) => parse_vdf(data@, *old(pos) as int) == Err::<(Option<(Seq<u8>, u64, Seq<u8>)>, int), SerdeError>(e),
        },
{
    let flag = match read_u8(data, pos) { Ok(v) => v, Err(e) => return Err(e) };
    if flag != 1 {
        return Ok(None);
    }
    let seed = match read_array32(data, pos) { Ok(v) => v, Err(e) => return Err(e) };
    let iterations = match read_u64(data, pos) { Ok(v) => v, Err(e) => return Err(e) };
    let output = match read_array32(data, pos) { Ok(v) => v, Err(e) => return Err(e) };
    Ok(Some(VdfProof { seed, iterations, output }))
}

/// Reads the bond section at `*pos`.
fn read_bond(data: &[u8], pos: &mut usize) -> (r: Result<Option<[u8; 32]>, SerdeError>)
    requires
        *old(pos) <= data@.len(),
    ensures
        match r {
            Ok(b) => parse_bond(data@, *old(pos) as int) == Ok::<(Option<Seq<u8>>, int), SerdeError>((opt_bond_view(b), *final(pos) as int))
                && *final(pos) <= data@.len(),
            Err(e) => parse_bond(data@, *old(pos) as int) == Err::<(Option<Seq<u8>>, int), SerdeError>(e),
        },
{
    let flag = match read_u8(data, pos) { Ok(v) => v, Err(e) => return Err(e) };
    if flag != 1 {
        return Ok(None);
    }
    let id = match read_array32(data, pos) { Ok(v) => v, Err(e) => return Err(e) };
    Ok(Some(id))
}


/// Prepending in two steps is prepending the concatenation.
proof fn lemma_lift_lift<T>(a: Seq<T>, b: Seq<T>, r: Result<(Seq<T>, int), SerdeError>)
    ensures
        lift(a, lift(b, r)) == lift(a + b, r),
{
    match r {
        Ok((xs, p)) => {
            assert(a + (b + xs) =~= (a + b) + xs);
        },
        Err(_) => {},
    }
}

/// The view of a list of disclosed attributes.
pub open spec fn disclosed_view(v: Seq<(usize, [u8; 32])>) -> Seq<(usize, Seq<u8>)> {
    v.map_values(|e: (usize, [u8; 32])| (e.0, e.1@))
}

/// The view of a list of scalars.
pub open spec fn scalars_view(v: Seq<[u8; 32]>) -> Seq<Seq<u8>> {
    v.map_values(|r: [u8; 32]| r@)
}

/// Reads `n` disclosed attributes at `*pos`.
fn read_disclosed(data: &[u8], pos: &mut usize, n: u8) -> (r: Result<Vec<(usize, [u8; 32])>, SerdeError>)
    requires
        *old(pos) <= data@.len(),
    ensures
        match r {
            Ok(v) => parse_disclosed(data@, *old(pos) as int, n as nat)
                == Ok::<(Seq<(usize, Seq<u8>)>, int), SerdeError>((disclosed_view(v@), *final(pos) as int))
                && *final(pos) <= data@.len(),
            Err(e) => parse_disclosed(data@, *old(pos) as int, n as nat) == Err::<(Seq<(usize, Seq<u8>)>, int), SerdeError>(e),
        },
{
    let ghost p0 = *pos as int;
    let mut v: Vec<(usize, [u8; 32])> = Vec::new();
    let mut k: u8 = 0;
    while k < n
        invariant
            *pos <= data@.len(),
            0 <= k <= n,
            p0 == *old(pos) as int,
            parse_disclosed(data@, p0, n as nat) == lift(disclosed_view(v@), parse_disclosed(data@, *pos as int, (n - k) as nat)),
        decreases n - k,
    {
        let ghost q = *pos as int;
        let ghost rest = parse_disclosed(data@, q + 33, (n - k - 1) as nat);
        assert(parse_disclosed(data@, q, (n - k) as nat) == (
            if q + 1 > data@.len() { Err(short(q + 1, data@)) }
            else if q + 33 > data@.len() { Err(short(q + 33, data@)) }
            else if !canonical(field_at(data@, q + 1)) { Err(SerdeError::InvalidScalar { offset: (q + 1) as usize }) }
            else { lift(seq![(data@[q] as usize, field_at(data@, q + 1))], rest) }));
        let idx = match read_u8(data, pos) { Ok(b) => b, Err(e) => return Err(e) };
        let val = match read_scalar(data, pos) { Ok(s) => s, Err(e) => return Err(e) };
        proof {
            lemma_lift_lift(disclosed_view(v@), seq![(idx as usize, val@)], rest);
        }
        let ghost old_v = v@;
        v.push((idx as usize, val));
        assert(disclosed_view(v@) =~= disclosed_view(old_v) + seq![(idx as usize, val@)]);
        k = k + 1;
    }
    Ok(v)
}

/// Reads `n` scalars at `*pos`.
fn read_responses(data: &[u8], pos: &mut usize, n: u8) -> (r: Result<Vec<[u8; 32]>, SerdeError>)
    requires
        *old(pos) <= data@.len(),
    ensures
        match r {
            Ok(v) => parse_responses(data@, *old(pos) as int, n as nat)
                == Ok::<(Seq<Seq<u8>>, int), SerdeError>((scalars_view(v@), *final(pos) as int))
                && *final(pos) <= data@.len(),
            Err(e) => parse_responses(data@, *old(pos) as int, n as nat) == Err::<(Seq<Seq<u8>>, int), SerdeError>(e),
        },
{
    let ghost p0 = *pos as int;
    let mut v: Vec<[u8; 32]> = Vec::new();
    let mut k: u8 = 0;
    while k < n
        invariant
            *pos <= data@.len(),
            0 <= k <= n,
            p0 == *old(pos) as int,
            parse_responses(data@, p0, n as nat) == lift(scalars_view(v@), parse_responses(data@, *pos as int, (n - k) as nat)),
        decreases n - k,
    {
        let ghost q = *pos as int;
        let ghost rest = parse_responses(data@, q + 32, (n - k - 1) as nat);
        assert(parse_responses(data@, q, (n - k) as nat) == (
            if q + 32 > data@.len() { Err(short(q + 32, data@)) }
            else if !canonical(field_at(data@, q)) { Err(SerdeError::InvalidScalar { offset: q as usize }) }
            else { lift(seq![field_at(data@, q)], rest) }));
        let val = match read_scalar(data, pos) { Ok(s) => s, Err(e) => return Err(e) };
        proof {
            lemma_lift_lift(scalars_view(v@), seq![val@], rest);
        }
        let ghost old_v = v@;
        v.push(val);
        assert(scalars_view(v@) =~= scalars_view(old_v) + seq![val@]);
        k = k + 1;
    }
    Ok(v)
}


/// Reads the presentation section at `*pos`.
fn read_presentation(data: &[u8], pos: &mut usize) -> (r: Result<Option<Presentation>, SerdeError>)
    requires
        *old(pos) <= data@.len(),
    ensures
        match r {
            Ok(p) => parse_pres(data@, *old(pos) as int) == Ok::<(Option<PresentationView>, int), SerdeError>((opt_presentation_view(p), *final(pos) as int))
                && *final(pos) <= data@.len(),
            Err(e) => parse_pres(data@, *old(pos) as int) == Err::<(Option<PresentationView>, int), SerdeError>(e),
        },
{
    reveal(parse_pres);
    let flag = match read_u8(data, pos) { Ok(v) => v, Err(e) => return Err(e) };
    if flag != 1 {
        return Ok(None);
    }
    let commitment = match read_point(data, pos) { Ok(v) => v, Err(e) => return Err(e) };
    let issuer_pk = match read_point(data, pos) { Ok(v) => v, Err(e) => return Err(e) };
    let cred_signature_s = match read_scalar(data, pos) { Ok(v) => v, Err(e) => return Err(e) };
    let cred_signature_e = match read_scalar(data, pos) { Ok(v) => v, Err(e) => return Err(e) };
    let n_disclosed = match read_u8(data, pos) { Ok(v) => v, Err(e) => return Err(e) };
    let disclosed = match read_disclosed(data, pos, n_disclosed) { Ok(v) => v, Err(e) => return Err(e) };
    let proof_commitment = match read_point(data, pos) { Ok(v) => v, Err(e) => return Err(e) };
    let n_responses = match read_u8(data, pos) { Ok(v) => v, Err(e) => return Err(e) };
    let proof_response = match read_responses(data, pos, n_responses) { Ok(v) => v, Err(e) => return Err(e) };
    let proof_challenge = match read_scalar(data, pos) { Ok(v) => v, Err(e) => return Err(e) };
    let p = Presentation {
        commitment,
        issuer_pk,
        cred_signature_s,
        cred_signature_e,
        disclosed,
        proof_commitment,
        proof_response,
        proof_challenge,
    };
    assert(presentation_view(p).disclosed == disclosed_view(p.disclosed@));
    assert(presentation_view(p).proof_response == scalars_view(p.proof_response@));
    Ok(Some(p))
}

/// Decodes a token.
///
/// Fails with the first problem met, in the order of the layout: data that
/// ends too early, wrong magic or version, a zero value, a transfer count
/// above the bound, a point that does not decode, a scalar that is not
/// canonical, a jurisdiction with other characters than letters, digits,
/// `-` and `_`. A flag byte other than 1 means the section is absent;
/// bytes after the last section are ignored.
pub fn deserialize_token(data: &[u8]) -> (r: Result<ProofCarryingToken, SerdeError>)
    ensures
        match r {
            Ok(t) => spec_deserialize(data@) == Ok::<TokenView, SerdeError>(token_view(t)),
            Err(e) => spec_deserialize(data@) == Err::<TokenView, SerdeError>(e),
        },
{
    let mut pos: usize = 0;
    let mut token = match read_fixed(data, &mut pos) { Ok(t) => t, Err(e) => return Err(e) };
    let credential = match read_credential(data, &mut pos) { Ok(v) => v, Err(e) => return Err(e) };
    let presentation = match read_presentation(data, &mut pos) { Ok(v) => v, Err(e) => return Err(e) };
    let vdf_proof = match read_vdf(data, &mut pos) { Ok(v) => v, Err(e) => return Err(e) };
    let bond_owner_id = match read_bond(data, &mut pos) { Ok(v) => v, Err(e) => return Err(e) };
    token.credential = credential;
    token.presentation = presentation;
    token.vdf_proof = vdf_proof;
    token.bond_owner_id = bond_owner_id;
    Ok(token)
}


// ─── Writing ───────────────────────────────────────────────────────────

proof fn lemma_disclosed_bytes_push(s: Seq<(usize, Seq<u8>)>, x: (usize, Seq<u8>))
    ensures
        disclosed_bytes(s.push(x)) == disclosed_bytes(s) + seq![(x.0 % 256) as u8] + x.1,
    decreases s.len(),
{
    if s.len() == 0 {
        let t = s.push(x);
        assert(t[0] == x);
        assert(t.drop_first() =~= Seq::<(usize, Seq<u8>)>::empty());
        assert(disclosed_bytes(t.drop_first()) == Seq::<u8>::empty());
        assert(disclosed_bytes(t) =~= seq![(x.0 % 256) as u8] + x.1 + Seq::<u8>::empty());
        assert(disclosed_bytes(s) + seq![(x.0 % 256) as u8] + x.1 =~= seq![(x.0 % 256) as u8] + x.1);
    } else {
        lemma_disclosed_bytes_push(s.drop_first(), x);
        assert(s.push(x).drop_first() =~= s.drop_first().push(x));
        let h = seq![(s[0].0 % 256) as u8] + s[0].1;
        assert(disclosed_bytes(s.push(x)) =~= h + disclosed_bytes(s.drop_first().push(x)));
        assert(h + (disclosed_bytes(s.drop_first()) + seq![(x.0 % 256) as u8] + x.1)
            =~= (h + disclosed_bytes(s.drop_first())) + seq![(x.0 % 256) as u8] + x.1);
    }
}

proof fn lemma_responses_bytes_push(s: Seq<Seq<u8>>, x: Seq<u8>)
    ensures
        responses_bytes(s.push(x)) == responses_bytes(s) + x,
    decreases s.len(),
{
    if s.len() == 0 {
        let t = s.push(x);
        assert(t[0] == x);
        assert(t.drop_first() =~= Seq::<Seq<u8>>::empty());
        assert(responses_bytes(t.drop_first()) == Seq::<u8>::empty());
        assert(responses_bytes(t) =~= x + Seq::<u8>::empty());
        assert(responses_bytes(s) + x =~= x);
    } else {
        lemma_responses_bytes_push(s.drop_first(), x);
        assert(s.push(x).drop_first() =~= s.drop_first().push(x));
        assert(responses_bytes(s.push(x)) =~= s[0] + responses_bytes(s.drop_first().push(x)));
        assert(s[0] + (responses_bytes(s.drop_first()) + x) =~= (s[0] + responses_bytes(s.drop_first())) + x);
    }
}

/// Appends one byte.
fn push_byte(buf: &mut Vec<u8>, b: u8)
    ensures
        final(buf)@ == old(buf)@ + seq![b],
{
    buf.push(b);
    assert(buf@ =~= old(buf)@ + seq![b]);
}

fn bool_to_byte(b: bool) -> (r: u8)
    ensures
        r == bool_byte(b),
{
    if b { 1 } else { 0 }
}

/// Appends the credential section.
fn write_credential(buf: &mut Vec<u8>, c: &Option<Credential>)
    ensures
        final(buf)@ == old(buf)@ + cred_bytes(opt_credential_view(*c)),
{
    match c {
        Some(cred) => {
            push_byte(buf, 1);
            crate::bytes::append_bytes(buf, &cred.commitment);
            crate::bytes::append_bytes(buf, &cred.blinding);
            push_byte(buf, bool_to_byte(cred.attributes.kyc_passed));
            push_byte(buf, bool_to_byte(cred.attributes.not_sanctioned));
            let jur = cred.attributes.jurisdiction.as_str().as_bytes();
            push_byte(buf, (jur.len() % 256) as u8);
            crate::bytes::append_bytes(buf, jur);
            push_byte(buf, bool_to_byte(cred.attributes.age_over_18));
            let exp = vstd::bytes::u64_to_le_bytes(cred.attributes.expires_at);
            crate::bytes::append_bytes(buf, exp.as_slice());
            crate::bytes::append_bytes(buf, &cred.signature_s);
            crate::bytes::append_bytes(buf, &cred.signature_e);
            crate::bytes::append_bytes(buf, &cred.issuer_pk);
            let ghost cv = credential_view(*cred);
            assert(buf@ =~= old(buf)@ + cred_bytes(Some(cv)));
        },
        None => push_byte(buf, 0),
    }
}

/// Appends the presentation section.
fn write_presentation(buf: &mut Vec<u8>, p: &Option<Presentation>)
    ensures
        final(buf)@ == old(buf)@ + pres_bytes(opt_presentation_view(*p)),
{
    match p {
        Some(pres) => {
            let ghost pv = presentation_view(*pres);
            push_byte(buf, 1);
            crate::bytes::append_bytes(buf, &pres.commitment);
            crate::bytes::append_bytes(buf, &pres.issuer_pk);
            crate::bytes::append_bytes(buf, &pres.cred_signature_s);
            crate::bytes::append_bytes(buf, &pres.cred_signature_e);
            push_byte(buf, (pres.disclosed.len() % 256) as u8);
            let ghost b1 = buf@;
            let mut i: usize = 0;
            while i < pres.disclosed.len()
                invariant
                    pv == presentation_view(*pres),
                    0 <= i <= pres.disclosed@.len(),
                    buf@ == b1 + disclosed_bytes(pv.disclosed.take(i as int)),
                decreases pres.disclosed@.len() - i,
            {
                let (idx, val) = pres.disclosed[i];
                proof {
                    assert(pv.disclosed.take(i + 1) =~= pv.disclosed.take(i as int).push((idx, val@)));
                    lemma_disclosed_bytes_push(pv.disclosed.take(i as int), (idx, val@));
                }
                push_byte(buf, (idx % 256) as u8);
                crate::bytes::append_bytes(buf, &val);
                i = i + 1;
            }
            assert(pv.disclosed.take(i as int) =~= pv.disclosed);
            crate::bytes::append_bytes(buf, &pres.proof_commitment);
            push_byte(buf, (pres.proof_response.len() % 256) as u8);
            let ghost b2 = buf@;
            let mut j: usize = 0;
            while j < pres.proof_response.len()
                invariant
                    pv == presentation_view(*pres),
                    0 <= j <= pres.proof_response@.len(),
                    buf@ == b2 + responses_bytes(pv.proof_response.take(j as int)),
                decreases pres.proof_response@.len() - j,
            {
                let r = pres.proof_response[j];
                proof {
                    assert(pv.proof_response.take(j + 1) =~= pv.proof_response.take(j as int).push(r@));
                    lemma_responses_bytes_push(pv.proof_response.take(j as int), r@);
                }
                crate::bytes::append_bytes(buf, &r);
                j = j + 1;
            }
            assert(pv.proof_response.take(j as int) =~= pv.proof_response);
            crate::bytes::append_bytes(buf, &pres.proof_challenge);
            assert(buf@ =~= old(buf)@ + pres_bytes(Some(pv)));
        },
        None => push_byte(buf, 0),
    }
}

/// Encodes a token, secrets included.
pub fn serialize_token(token: &ProofCarryingToken) -> (buf: Vec<u8>)
    ensures
        buf@ == token_bytes(token_view(*token)),
{
    let mut buf: Vec<u8> = Vec::new();
    let magic_bytes: [u8; 4] = [0x53, 0x50, 0x43, 0x54];
    assert(magic_bytes@ =~= magic());
    crate::bytes::append_bytes(&mut buf, &magic_bytes);
    push_byte(&mut buf, VERSION);
    crate::bytes::append_bytes(&mut buf, &token.token_id);
    let v = vstd::bytes::u64_to_le_bytes(token.value);
    crate::bytes::append_bytes(&mut buf, v.as_slice());
    crate::bytes::append_bytes(&mut buf, &token.value_commitment);
    crate::bytes::append_bytes(&mut buf, &token.value_proof.commitment);
    crate::bytes::append_bytes(&mut buf, &token.value_proof.response);
    crate::bytes::append_bytes(&mut buf, &token.mint_signature.s);
    crate::bytes::append_bytes(&mut buf, &token.mint_signature.e);
    crate::bytes::append_bytes(&mut buf, &token.owner_secret);
    crate::bytes::append_bytes(&mut buf, &token.hash_chain_head);
    let tc = vstd::bytes::u32_to_le_bytes(token.transfer_count);
    crate::bytes::append_bytes(&mut buf, tc.as_slice());
    let rb = vstd::bytes::u32_to_le_bytes(token.recursion_bound);
    crate::bytes::append_bytes(&mut buf, rb.as_slice());
    crate::bytes::append_bytes(&mut buf, &token.fold_proof.s);
    crate::bytes::append_bytes(&mut buf, &token.fold_proof.e);
    crate::bytes::append_bytes(&mut buf, &token.fold_proof.r);
    crate::bytes::append_bytes(&mut buf, &token.fold_proof.pk);
    crate::bytes::append_bytes(&mut buf, &token.fold_proof.state_hash);
    crate::bytes::append_bytes(&mut buf, &token.fold_proof.pk_chain_hash);
    crate::bytes::append_bytes(&mut buf, &token.fold_proof.genesis_state_hash);
    crate::bytes::append_bytes(&mut buf, &token.fold_proof.current_owner_hash);
    let st = vstd::bytes::u32_to_le_bytes(token.fold_proof.steps);
    crate::bytes::append_bytes(&mut buf, st.as_slice());
    crate::bytes::append_bytes(&mut buf, &token.genesis_owner_hash);
    assert(buf@ == fixed_bytes(token_view(*token).fixed));
    write_credential(&mut buf, &token.credential);
    write_presentation(&mut buf, &token.presentation);
    match &token.vdf_proof {
        Some(vdf) => {
            push_byte(&mut buf, 1);
            crate::bytes::append_bytes(&mut buf, &vdf.seed);
            let it = vstd::bytes::u64_to_le_bytes(vdf.iterations);
            crate::bytes::append_bytes(&mut buf, it.as_slice());
            crate::bytes::append_bytes(&mut buf, &vdf.output);
        },
        None => push_byte(&mut buf, 0),
    }
    match &token.bond_owner_id {
        Some(id) => {
            push_byte(&mut buf, 1);
            crate::bytes::append_bytes(&mut buf, id);
        },
        None => push_byte(&mut buf, 0),
    }
    buf
}

/// The size of a token's encoding in bytes.
pub fn serialized_size(token: &ProofCarryingToken) -> (n: usize)
    ensures
        n == token_bytes(token_view(*token)).len(),
{
    serialize_token(token).len()
}


/// `b` with the `len` bytes at `start` set to zero.
pub open spec fn zeroed(b: Seq<u8>, start: int, len: int) -> Seq<u8> {
    b.subrange(0, start) + Seq::new(len as nat, |i: int| 0u8) + b.subrange(start + len, b.len() as int)
}

/// An encoding with the owner secret zeroed and, where a credential is
/// present, its blinding factor zeroed.
pub open spec fn redacted(b: Seq<u8>) -> Seq<u8> {
    let b1 = if b.len() >= OWNER_SECRET_OFFSET + 32 { zeroed(b, OWNER_SECRET_OFFSET as int, 32) } else { b };
    if b1.len() > CRED_FLAG_OFFSET && b1[CRED_FLAG_OFFSET as int] == 1 && b1.len() >= CRED_FLAG_OFFSET + 65 {
        zeroed(b1, CRED_FLAG_OFFSET + 33, 32)
    } else {
        b1
    }
}

/// Sets `buf[start..start + 32]` to zero.
fn zero32(buf: &mut Vec<u8>, start: usize)
    requires
        start + 32 <= old(buf)@.len(),
    ensures
        final(buf)@ == zeroed(old(buf)@, start as int, 32),
{
    let mut i: usize = 0;
    while i < 32
        invariant
            0 <= i <= 32,
            start + 32 <= buf.len(),
            buf@.len() == old(buf)@.len(),
            forall|k: int| 0 <= k < buf@.len() ==> #[trigger] buf@[k] == if start <= k < start + i { 0u8 } else { old(buf)@[k] },
        decreases 32 - i,
    {
        buf.set(start + i, 0);
        i = i + 1;
    }
    assert(buf@ =~= zeroed(old(buf)@, start as int, 32));
}

/// Encodes a token for transmission: as `serialize_token`, with the owner
/// secret and the credential's blinding factor zeroed.
pub fn serialize_token_public(token: &ProofCarryingToken) -> (buf: Vec<u8>)
    ensures
        buf@ == redacted(token_bytes(token_view(*token))),
{
    let mut buf = serialize_token(token);
    if buf.len() >= OWNER_SECRET_OFFSET + 32 {
        zero32(&mut buf, OWNER_SECRET_OFFSET);
    }
    if buf.len() > CRED_FLAG_OFFSET && buf[CRED_FLAG_OFFSET] == 1 {
        let blinding_offset = CRED_FLAG_OFFSET + 1 + 32;
        if buf.len() >= blinding_offset + 32 {
            zero32(&mut buf, blinding_offset);
        }
    }
    buf
}


/// Encodes a token and encrypts the encoding under a passphrase.
pub fn serialize_encrypted(token: &ProofCarryingToken, passphrase: &[u8]) -> (r: Result<EncryptedData, SerdeError>)
    requires
        token_bytes(token_view(*token)).len() / 64 < 0xFFFF_FFFF,
        passphrase@.len() <= 0xFFFF_FFFF,
    ensures
        passphrase@.len() < crate::pct::secure_store::MIN_PASSPHRASE_LEN ==> r == Err::<EncryptedData, SerdeError>(
            SerdeError::Storage(SecureStoreError::PassphraseTooShort {
                min: crate::pct::secure_store::MIN_PASSPHRASE_LEN, got: passphrase@.len() as usize })),
        passphrase@.len() >= crate::pct::secure_store::MIN_PASSPHRASE_LEN ==> r is Ok && {
            let e = r->Ok_0;
            &&& e.ciphertext@ == spec_aead_seal(spec_derive_key(passphrase@, e.salt@), e.nonce@, token_bytes(token_view(*token)))
            &&& decrypt_result(e, passphrase@) == Ok::<Seq<u8>, SecureStoreError>(token_bytes(token_view(*token)))
        },
{
    let plaintext = serialize_token(token);
    match crate::pct::secure_store::encrypt(plaintext.as_slice(), passphrase) {
        Ok(e) => Ok(e),
        Err(e) => Err(SerdeError::Storage(e)),
    }
}

/// Decrypts with a passphrase and decodes the token.
pub fn deserialize_encrypted(encrypted: &EncryptedData, passphrase: &[u8]) -> (r: Result<ProofCarryingToken, SerdeError>)
    requires
        passphrase@.len() <= 0xFFFF_FFFF,
    ensures
        match decrypt_result(*encrypted, passphrase@) {
            Err(e) => r == Err::<ProofCarryingToken, SerdeError>(SerdeError::Storage(e)),
            Ok(pt) => match r {
                Ok(t) => spec_deserialize(pt) == Ok::<TokenView, SerdeError>(token_view(t)),
                Err(e) => spec_deserialize(pt) == Err::<TokenView, SerdeError>(e),
            },
        },
{
    let plaintext = match crate::pct::secure_store::decrypt(encrypted, passphrase) {
        Ok(p) => p,
        Err(e) => return Err(SerdeError::Storage(e)),
    };
    deserialize_token(plaintext.as_slice())
}


// ─── Decoding an encoding ──────────────────────────────────────────────

/// The fixed fields of an encoding stand at their offsets.
#[verifier::spinoff_prover]
#[verifier::rlimit(60)]
proof fn lemma_fixed_layout(t: ProofCarryingToken, rest: Seq<u8>)
    ensures
        ({
            let f = token_view(t).fixed;
            let d = fixed_bytes(f) + rest;
            &&& fixed_bytes(f).len() == 569
            &&& d.subrange(0, 4) == magic()
            &&& d[4] == VERSION
            &&& field_at(d, 5) == f.token_id
            &&& d.subrange(37, 45) == vstd::bytes::spec_u64_to_le_bytes(f.value)
            &&& field_at(d, 45) == f.value_commitment
            &&& field_at(d, 77) == f.vp_commitment
            &&& field_at(d, 109) == f.vp_response
            &&& field_at(d, 141) == f.sig_s
            &&& field_at(d, 173) == f.sig_e
            &&& field_at(d, 205) == f.owner_secret
            &&& field_at(d, 237) == f.hash_chain_head
            &&& d.subrange(269, 273) == vstd::bytes::spec_u32_to_le_bytes(f.transfer_count)
            &&& d.subrange(273, 277) == vstd::bytes::spec_u32_to_le_bytes(f.recursion_bound)
            &&& field_at(d, 277) == f.fold_s
            &&& field_at(d, 309) == f.fold_e
            &&& field_at(d, 341) == f.fold_r
            &&& field_at(d, 373) == f.fold_pk
            &&& field_at(d, 405) == f.fold_state_hash
            &&& field_at(d, 437) == f.fold_pk_chain_hash
            &&& field_at(d, 469) == f.fold_genesis_state_hash
            &&& field_at(d, 501) == f.fold_current_owner_hash
            &&& d.subrange(533, 537) == vstd::bytes::spec_u32_to_le_bytes(f.fold_steps)
            &&& field_at(d, 537) == f.genesis_owner_hash
        }),
{
    vstd::bytes::lemma_auto_spec_u64_to_from_le_bytes();
    vstd::bytes::lemma_auto_spec_u32_to_from_le_bytes();
    let f = token_view(t).fixed;
    let d = fixed_bytes(f) + rest;
    assert(d.subrange(0, 4) =~= magic());
    assert(field_at(d, 5) =~= f.token_id);
    assert(d.subrange(37, 45) =~= vstd::bytes::spec_u64_to_le_bytes(f.value));
    assert(field_at(d, 45) =~= f.value_commitment);
    assert(field_at(d, 77) =~= f.vp_commitment);
    assert(field_at(d, 109) =~= f.vp_response);
    assert(field_at(d, 141) =~= f.sig_s);
    assert(field_at(d, 173) =~= f.sig_e);
    assert(field_at(d, 205) =~= f.owner_secret);
    assert(field_at(d, 237) =~= f.hash_chain_head);
    assert(d.subrange(269, 273) =~= vstd::bytes::spec_u32_to_le_bytes(f.transfer_count));
    assert(d.subrange(273, 277) =~= vstd::bytes::spec_u32_to_le_bytes(f.recursion_bound));
    assert(field_at(d, 277) =~= f.fold_s);
    assert(field_at(d, 309) =~= f.fold_e);
    assert(field_at(d, 341) =~= f.fold_r);
    assert(field_at(d, 373) =~= f.fold_pk);
    assert(field_at(d, 405) =~= f.fold_state_hash);
    assert(field_at(d, 437) =~= f.fold_pk_chain_hash);
    assert(field_at(d, 469) =~= f.fold_genesis_state_hash);
    assert(field_at(d, 501) =~= f.fold_current_owner_hash);
    assert(d.subrange(533, 537) =~= vstd::bytes::spec_u32_to_le_bytes(f.fold_steps));
    assert(field_at(d, 537) =~= f.genesis_owner_hash);
}


/// The fixed fields can be decoded: a nonzero value, a transfer count
/// within the bound, group elements that decode and canonical scalars.
pub open spec fn fixed_ok(t: ProofCarryingToken) -> bool {
    &&& t.value != 0
    &&& t.transfer_count <= t.recursion_bound
    &&& ristretto_valid(t.value_commitment@)
    &&& ristretto_valid(t.value_proof.commitment@)
    &&& canonical(t.value_proof.response@)
    &&& canonical(t.mint_signature.s@)
    &&& canonical(t.mint_signature.e@)
    &&& canonical(t.fold_proof.s@)
    &&& canonical(t.fold_proof.e@)
    &&& ristretto_valid(t.fold_proof.r@)
    &&& ristretto_valid(t.fold_proof.pk@)
}

proof fn lemma_parse_fixed(t: ProofCarryingToken, rest: Seq<u8>)
    requires
        fixed_ok(t),
    ensures
        parse_fixed(fixed_bytes(token_view(t).fixed) + rest) == Ok::<FixedView, SerdeError>(token_view(t).fixed),
{
    reveal(parse_fixed);
    lemma_fixed_layout(t, rest);
    vstd::bytes::lemma_auto_spec_u64_to_from_le_bytes();
    vstd::bytes::lemma_auto_spec_u32_to_from_le_bytes();
}


/// The credential section can be decoded.
pub open spec fn cred_ok(c: Option<Credential>) -> bool {
    match c {
        None => true,
        Some(c) => {
            &&& ristretto_valid(c.commitment@)
            &&& canonical(c.blinding@)
            &&& jurisdiction_bytes(c.attributes.jurisdiction@).len() < 256
            &&& jurisdiction_ok(c.attributes.jurisdiction@)
            &&& canonical(c.signature_s@)
            &&& canonical(c.signature_e@)
            &&& ristretto_valid(c.issuer_pk@)
        },
    }
}

#[verifier::spinoff_prover]
#[verifier::rlimit(60)]
proof fn lemma_parse_cred(a: Seq<u8>, c: Option<Credential>, rest: Seq<u8>)
    requires
        cred_ok(c),
    ensures
        parse_cred(a + cred_bytes(opt_credential_view(c)) + rest, a.len() as int)
            == Ok::<(Option<CredentialView>, int), SerdeError>((opt_credential_view(c), a.len() + cred_bytes(opt_credential_view(c)).len() as int)),
{
    reveal(parse_cred);
    broadcast use vstd::utf8::encode_utf8_valid_utf8, vstd::utf8::encode_utf8_decode_utf8;
    vstd::bytes::lemma_auto_spec_u64_to_from_le_bytes();
    let cb = cred_bytes(opt_credential_view(c));
    let d = a + cb + rest;
    let p = a.len() as int;
    match c {
        None => {
            assert(d[p] == cb[0]);
        },
        Some(cr) => {
            let cv = credential_view(cr);
            let jb = jurisdiction_bytes(cv.jurisdiction);
            let l = jb.len() as int;
            let q = p + 1;
            assert(cb.len() == 173 + l);
            assert(d[p] == 1);
            assert(field_at(d, q) =~= cv.commitment);
            assert(field_at(d, q + 32) =~= cv.blinding);
            assert(d[q + 64] == bool_byte(cv.kyc_passed));
            assert(d[q + 65] == bool_byte(cv.not_sanctioned));
            assert(d[q + 66] == (l % 256) as u8);
            assert(d[q + 66] as int == l);
            let j0 = q + 67;
            assert(d.subrange(j0, j0 + l) =~= jb);
            let at = j0 + l;
            assert(d[at] == bool_byte(cv.age_over_18));
            assert(d.subrange(at + 1, at + 9) =~= vstd::bytes::spec_u64_to_le_bytes(cv.expires_at));
            assert(field_at(d, at + 9) =~= cv.signature_s);
            assert(field_at(d, at + 41) =~= cv.signature_e);
            assert(field_at(d, at + 73) =~= cv.issuer_pk);
            assert(lossy_text(jb) == cv.jurisdiction);
        },
    }
}


proof fn lemma_parse_disclosed(a: Seq<u8>, ds: Seq<(usize, Seq<u8>)>, rest: Seq<u8>)
    requires
        forall|i: int| 0 <= i < ds.len() ==> (#[trigger] ds[i]).0 < 256 && ds[i].1.len() == 32 && canonical(ds[i].1),
    ensures
        parse_disclosed(a + disclosed_bytes(ds) + rest, a.len() as int, ds.len())
            == Ok::<(Seq<(usize, Seq<u8>)>, int), SerdeError>((ds, a.len() + disclosed_bytes(ds).len() as int)),
    decreases ds.len(),
{
    let d = a + disclosed_bytes(ds) + rest;
    if ds.len() == 0 {
        assert(disclosed_bytes(ds) =~= Seq::<u8>::empty());
        assert(ds =~= Seq::<(usize, Seq<u8>)>::empty());
    } else {
        let h = ds[0];
        let tail = ds.drop_first();
        let a2 = a + seq![(h.0 % 256) as u8] + h.1;
        assert(d =~= a2 + disclosed_bytes(tail) + rest);
        assert forall|i: int| 0 <= i < tail.len() implies (#[trigger] tail[i]).0 < 256 && tail[i].1.len() == 32 && canonical(tail[i].1) by {
            assert(tail[i] == ds[i + 1]);
        }
        lemma_parse_disclosed(a2, tail, rest);
        let p = a.len() as int;
        assert(d[p] == (h.0 % 256) as u8);
        assert(field_at(d, p + 1) =~= h.1);
        assert(seq![(d[p] as usize, field_at(d, p + 1))] + tail =~= ds);
        assert(a2.len() + disclosed_bytes(tail).len() == a.len() + disclosed_bytes(ds).len());
    }
}

proof fn lemma_parse_responses(a: Seq<u8>, rs: Seq<Seq<u8>>, rest: Seq<u8>)
    requires
        forall|i: int| 0 <= i < rs.len() ==> (#[trigger] rs[i]).len() == 32 && canonical(rs[i]),
    ensures
        parse_responses(a + responses_bytes(rs) + rest, a.len() as int, rs.len())
            == Ok::<(Seq<Seq<u8>>, int), SerdeError>((rs, a.len() + responses_bytes(rs).len() as int)),
    decreases rs.len(),
{
    let d = a + responses_bytes(rs) + rest;
    if rs.len() == 0 {
        assert(responses_bytes(rs) =~= Seq::<u8>::empty());
        assert(rs =~= Seq::<Seq<u8>>::empty());
    } else {
        let h = rs[0];
        let tail = rs.drop_first();
        let a2 = a + h;
        assert(d =~= a2 + responses_bytes(tail) + rest);
        assert forall|i: int| 0 <= i < tail.len() implies (#[trigger] tail[i]).len() == 32 && canonical(tail[i]) by {
            assert(tail[i] == rs[i + 1]);
        }
        lemma_parse_responses(a2, tail, rest);
        let p = a.len() as int;
        assert(field_at(d, p) =~= h);
        assert(seq![field_at(d, p)] + tail =~= rs);
    }
}


/// The presentation section can be decoded.
pub open spec fn pres_ok(p: Option<Presentation>) -> bool {
    match p {
        None => true,
        Some(p) => {
            let pv = presentation_view(p);
            &&& ristretto_valid(pv.commitment)
            &&& ristretto_valid(pv.issuer_pk)
            &&& canonical(pv.cred_signature_s)
            &&& canonical(pv.cred_signature_e)
            &&& pv.disclosed.len() < 256
            &&& forall|i: int| 0 <= i < pv.disclosed.len() ==> (#[trigger] pv.disclosed[i]).0 < 256 && canonical(pv.disclosed[i].1)
            &&& ristretto_valid(pv.proof_commitment)
            &&& pv.proof_response.len() < 256
            &&& forall|i: int| 0 <= i < pv.proof_response.len() ==> canonical(#[trigger] pv.proof_response[i])
            &&& canonical(pv.proof_challenge)
        },
    }
}

#[verifier::spinoff_prover]
#[verifier::rlimit(80)]
proof fn lemma_parse_pres(a: Seq<u8>, p: Option<Presentation>, rest: Seq<u8>)
    requires
        pres_ok(p),
    ensures
        parse_pres(a + pres_bytes(opt_presentation_view(p)) + rest, a.len() as int)
            == Ok::<(Option<PresentationView>, int), SerdeError>((opt_presentation_view(p), a.len() + pres_bytes(opt_presentation_view(p)).len() as int)),
{
    reveal(parse_pres);
    let pb = pres_bytes(opt_presentation_view(p));
    let d = a + pb + rest;
    let at = a.len() as int;
    match p {
        None => {
            assert(d[at] == pb[0]);
        },
        Some(pr) => {
            let pv = presentation_view(pr);
            let q = at + 1;
            let nd = (pv.disclosed.len() % 256) as u8;
            let nr = (pv.proof_response.len() % 256) as u8;
            let db = disclosed_bytes(pv.disclosed);
            let rb = responses_bytes(pv.proof_response);
            assert(d[at] == 1);
            assert(field_at(d, q) =~= pv.commitment);
            assert(field_at(d, q + 32) =~= pv.issuer_pk);
            assert(field_at(d, q + 64) =~= pv.cred_signature_s);
            assert(field_at(d, q + 96) =~= pv.cred_signature_e);
            assert(d[q + 128] == nd);
            assert(d[q + 128] as nat == pv.disclosed.len());
            let a1 = a + seq![1u8] + pv.commitment + pv.issuer_pk + pv.cred_signature_s + pv.cred_signature_e + seq![nd];
            let r1 = pv.proof_commitment + seq![nr] + rb + pv.proof_challenge + rest;
            assert(d =~= a1 + db + r1);
            assert forall|i: int| 0 <= i < pv.disclosed.len() implies (#[trigger] pv.disclosed[i]).0 < 256
                && pv.disclosed[i].1.len() == 32 && canonical(pv.disclosed[i].1) by {
                assert(pv.disclosed[i] == (pr.disclosed@[i].0, pr.disclosed@[i].1@));
            }
            lemma_parse_disclosed(a1, pv.disclosed, r1);
            let b0 = (a1.len() + db.len()) as int;
            assert(field_at(d, b0) =~= pv.proof_commitment);
            assert(d[b0 + 32] == nr);
            assert(d[b0 + 32] as nat == pv.proof_response.len());
            let a2 = a1 + db + pv.proof_commitment + seq![nr];
            let r2 = pv.proof_challenge + rest;
            assert(d =~= a2 + rb + r2);
            assert forall|i: int| 0 <= i < pv.proof_response.len() implies (#[trigger] pv.proof_response[i]).len() == 32
                && canonical(pv.proof_response[i]) by {
                assert(pv.proof_response[i] == pr.proof_response@[i]@);
            }
            lemma_parse_responses(a2, pv.proof_response, r2);
            let c0 = (a2.len() + rb.len()) as int;
            assert(field_at(d, c0) =~= pv.proof_challenge);
            assert(c0 + 32 == at + pb.len());
        },
    }
}


proof fn lemma_parse_vdf(a: Seq<u8>, v: Option<VdfProof>, rest: Seq<u8>)
    ensures
        parse_vdf(a + vdf_bytes(opt_vdf_view(v)) + rest, a.len() as int)
            == Ok::<(Option<(Seq<u8>, u64, Seq<u8>)>, int), SerdeError>((opt_vdf_view(v), a.len() + vdf_bytes(opt_vdf_view(v)).len() as int)),
{
    vstd::bytes::lemma_auto_spec_u64_to_from_le_bytes();
    let vb = vdf_bytes(opt_vdf_view(v));
    let d = a + vb + rest;
    let p = a.len() as int;
    assert(d[p] == vb[0]);
    match v {
        None => {},
        Some(x) => {
            assert(field_at(d, p + 1) =~= x.seed@);
            assert(d.subrange(p + 33, p + 41) =~= vstd::bytes::spec_u64_to_le_bytes(x.iterations));
            assert(field_at(d, p + 41) =~= x.output@);
        },
    }
}

proof fn lemma_parse_bond(a: Seq<u8>, b: Option<[u8; 32]>, rest: Seq<u8>)
    ensures
        parse_bond(a + bond_bytes(opt_bond_view(b)) + rest, a.len() as int)
            == Ok::<(Option<Seq<u8>>, int), SerdeError>((opt_bond_view(b), a.len() + bond_bytes(opt_bond_view(b)).len() as int)),
{
    let bb = bond_bytes(opt_bond_view(b));
    let d = a + bb + rest;
    let p = a.len() as int;
    assert(d[p] == bb[0]);
    match b {
        None => {},
        Some(x) => {
            assert(field_at(d, p + 1) =~= x@);
        },
    }
}

/// A token that the format can carry: its fields decode (see
/// `fixed_ok`, `cred_ok`, `pres_ok`).
pub open spec fn wire_ok(t: ProofCarryingToken) -> bool {
    fixed_ok(t) && cred_ok(t.credential) && pres_ok(t.presentation)
}

/// Decoding an encoding, followed by any bytes, gives the token back.
#[verifier::spinoff_prover]
#[verifier::rlimit(50)]
pub proof fn law_decode_inverts_encode(t: ProofCarryingToken, rest: Seq<u8>)
    requires
        wire_ok(t),
    ensures
        spec_deserialize(token_bytes(token_view(t)) + rest) == Ok::<TokenView, SerdeError>(token_view(t)),
{
    let tv = token_view(t);
    let f = fixed_bytes(tv.fixed);
    let c = cred_bytes(tv.credential);
    let p = pres_bytes(tv.presentation);
    let v = vdf_bytes(tv.vdf);
    let b = bond_bytes(tv.bond_owner_id);
    let d = token_bytes(tv) + rest;
    lemma_fixed_layout(t, Seq::empty());
    assert(f.len() == 569) by {
        assert(f + Seq::<u8>::empty() =~= f);
    }
    assert(d =~= f + (c + p + v + b + rest));
    lemma_parse_fixed(t, c + p + v + b + rest);
    assert(d =~= f + c + (p + v + b + rest));
    lemma_parse_cred(f, t.credential, p + v + b + rest);
    assert(d =~= (f + c) + p + (v + b + rest));
    lemma_parse_pres(f + c, t.presentation, v + b + rest);
    assert(d =~= (f + c + p) + v + (b + rest));
    lemma_parse_vdf(f + c + p, t.vdf_proof, b + rest);
    assert(d =~= (f + c + p + v) + b + rest);
    lemma_parse_bond(f + c + p + v, t.bond_owner_id, rest);
}

/// Replacing the value proof's response scalar in a token's encoding by a
/// non-canonical encoding has the token refused at that field.
#[verifier::spinoff_prover]
#[verifier::rlimit(60)]
pub proof fn law_non_canonical_response_refused(t: ProofCarryingToken, s: Seq<u8>)
    requires
        wire_ok(t),
        s.len() == 32,
        !canonical(s),
    ensures
        ({
            let b = token_bytes(token_view(t));
            spec_deserialize(b.subrange(0, 109) + s + b.subrange(141, b.len() as int))
                == Err::<TokenView, SerdeError>(SerdeError::InvalidScalar { offset: 109 })
        }),
{
    let b = token_bytes(token_view(t));
    law_decode_inverts_encode(t, Seq::empty());
    assert(b + Seq::<u8>::empty() =~= b);
    reveal(parse_fixed);
    assert(parse_fixed(b) is Ok);
    let d = b.subrange(0, 109) + s + b.subrange(141, b.len() as int);
    assert(d.len() == b.len());
    assert forall|x: int, y: int| 0 <= x <= y <= 109 implies #[trigger] d.subrange(x, y) =~= b.subrange(x, y) by {}
    assert(d[4] == b[4]);
    assert(field_at(d, 109) =~= s);
    assert(d.subrange(0, 4) == b.subrange(0, 4));
    assert(d.subrange(37, 45) == b.subrange(37, 45));
    assert(field_at(d, 45) == field_at(b, 45));
    assert(field_at(d, 77) == field_at(b, 77));
}

/// The error for data that ends at `l`, before the `need > l` bytes that
/// decoding wants.
pub open spec fn short_at(e: SerdeError, l: int) -> bool {
    e matches SerdeError::BufferTooShort { need, have } && have == l && need > l
}

/// A prefix of `d` agrees with `d` on its bytes.
proof fn lemma_take_agrees(d: Seq<u8>, l: int)
    requires
        0 <= l <= d.len(),
    ensures
        d.take(l).len() == l,
        forall|x: int, y: int| 0 <= x <= y <= l ==> #[trigger] d.take(l).subrange(x, y) == d.subrange(x, y),
        forall|i: int| 0 <= i < l ==> #[trigger] d.take(l)[i] == d[i],
{
    assert forall|x: int, y: int| 0 <= x <= y <= l implies #[trigger] d.take(l).subrange(x, y) == d.subrange(x, y) by {
        assert(d.take(l).subrange(x, y) =~= d.subrange(x, y));
    }
}

#[verifier::spinoff_prover]
#[verifier::rlimit(60)]
proof fn lemma_fixed_prefix(d: Seq<u8>, l: int)
    requires
        parse_fixed(d) is Ok,
        0 <= l <= d.len(),
        l < usize::MAX,
    ensures
        l < 569 ==> parse_fixed(d.take(l)) is Err && short_at(parse_fixed(d.take(l))->Err_0, l),
        l >= 569 ==> parse_fixed(d.take(l)) == parse_fixed(d),
{
    reveal(parse_fixed);
    lemma_take_agrees(d, l);
}

#[verifier::spinoff_prover]
#[verifier::rlimit(60)]
proof fn lemma_cred_prefix(d: Seq<u8>, p: int, l: int)
    requires
        parse_cred(d, p) is Ok,
        0 <= p <= l <= d.len(),
        l < usize::MAX,
    ensures
        l < parse_cred(d, p)->Ok_0.1 ==> parse_cred(d.take(l), p) is Err && short_at(parse_cred(d.take(l), p)->Err_0, l),
        l >= parse_cred(d, p)->Ok_0.1 ==> parse_cred(d.take(l), p) == parse_cred(d, p),
{
    reveal(parse_cred);
    lemma_take_agrees(d, l);
}

proof fn lemma_disclosed_end(d: Seq<u8>, p: int, k: nat)
    requires
        parse_disclosed(d, p, k) is Ok,
    ensures
        parse_disclosed(d, p, k)->Ok_0.1 >= p,
    decreases k,
{
    if k > 0 {
        lemma_disclosed_end(d, p + 33, (k - 1) as nat);
    }
}

proof fn lemma_responses_end(d: Seq<u8>, p: int, k: nat)
    requires
        parse_responses(d, p, k) is Ok,
    ensures
        parse_responses(d, p, k)->Ok_0.1 >= p,
    decreases k,
{
    if k > 0 {
        lemma_responses_end(d, p + 32, (k - 1) as nat);
    }
}

proof fn lemma_disclosed_prefix(d: Seq<u8>, p: int, k: nat, l: int)
    requires
        parse_disclosed(d, p, k) is Ok,
        0 <= p <= l <= d.len(),
        l < usize::MAX,
    ensures
        l < parse_disclosed(d, p, k)->Ok_0.1 ==> parse_disclosed(d.take(l), p, k) is Err
            && short_at(parse_disclosed(d.take(l), p, k)->Err_0, l),
        l >= parse_disclosed(d, p, k)->Ok_0.1 ==> parse_disclosed(d.take(l), p, k) == parse_disclosed(d, p, k),
    decreases k,
{
    lemma_take_agrees(d, l);
    if k > 0 {
        lemma_disclosed_end(d, p + 33, (k - 1) as nat);
        if p + 33 <= l {
            lemma_disclosed_prefix(d, p + 33, (k - 1) as nat, l);
        }
    }
}

proof fn lemma_responses_prefix(d: Seq<u8>, p: int, k: nat, l: int)
    requires
        parse_responses(d, p, k) is Ok,
        0 <= p <= l <= d.len(),
        l < usize::MAX,
    ensures
        l < parse_responses(d, p, k)->Ok_0.1 ==> parse_responses(d.take(l), p, k) is Err
            && short_at(parse_responses(d.take(l), p, k)->Err_0, l),
        l >= parse_responses(d, p, k)->Ok_0.1 ==> parse_responses(d.take(l), p, k) == parse_responses(d, p, k),
    decreases k,
{
    lemma_take_agrees(d, l);
    if k > 0 {
        lemma_responses_end(d, p + 32, (k - 1) as nat);
        if p + 32 <= l {
            lemma_responses_prefix(d, p + 32, (k - 1) as nat, l);
        }
    }
}

#[verifier::spinoff_prover]
#[verifier::rlimit(80)]
proof fn lemma_pres_prefix(d: Seq<u8>, p: int, l: int)
    requires
        parse_pres(d, p) is Ok,
        0 <= p <= l <= d.len(),
        l < usize::MAX,
    ensures
        l < parse_pres(d, p)->Ok_0.1 ==> parse_pres(d.take(l), p) is Err && short_at(parse_pres(d.take(l), p)->Err_0, l),
        l >= parse_pres(d, p)->Ok_0.1 ==> parse_pres(d.take(l), p) == parse_pres(d, p),
{
    reveal(parse_pres);
    lemma_take_agrees(d, l);
    let q = p + 1;
    if d[p] == 1 {
        lemma_disclosed_end(d, q + 129, d[q + 128] as nat);
        let a = parse_disclosed(d, q + 129, d[q + 128] as nat)->Ok_0.1;
        lemma_responses_end(d, a + 33, d[a + 32] as nat);
        if q + 129 <= l {
            lemma_disclosed_prefix(d, q + 129, d[q + 128] as nat, l);
            if a + 33 <= l {
                lemma_responses_prefix(d, a + 33, d[a + 32] as nat, l);
            }
        }
    }
}

proof fn lemma_vdf_prefix(d: Seq<u8>, p: int, l: int)
    requires
        parse_vdf(d, p) is Ok,
        0 <= p <= l <= d.len(),
        l < usize::MAX,
    ensures
        l < parse_vdf(d, p)->Ok_0.1 ==> parse_vdf(d.take(l), p) is Err && short_at(parse_vdf(d.take(l), p)->Err_0, l),
        l >= parse_vdf(d, p)->Ok_0.1 ==> parse_vdf(d.take(l), p) == parse_vdf(d, p),
{
    lemma_take_agrees(d, l);
}

proof fn lemma_bond_prefix(d: Seq<u8>, p: int, l: int)
    requires
        parse_bond(d, p) is Ok,
        0 <= p <= l <= d.len(),
        l < usize::MAX,
    ensures
        l < parse_bond(d, p)->Ok_0.1 ==> parse_bond(d.take(l), p) is Err && short_at(parse_bond(d.take(l), p)->Err_0, l),
        l >= parse_bond(d, p)->Ok_0.1 ==> parse_bond(d.take(l), p) == parse_bond(d, p),
{
    lemma_take_agrees(d, l);
}

/// Every strict prefix of a token's encoding is refused: the data ends
/// before the bytes that decoding needs.
#[verifier::spinoff_prover]
#[verifier::rlimit(60)]
pub proof fn law_strict_prefix_refused(t: ProofCarryingToken, l: int)
    requires
        wire_ok(t),
        0 <= l < token_bytes(token_view(t)).len(),
        token_bytes(token_view(t)).len() <= usize::MAX,
    ensures
        spec_deserialize(token_bytes(token_view(t)).take(l)) is Err,
        short_at(spec_deserialize(token_bytes(token_view(t)).take(l))->Err_0, l),
{
    let tv = token_view(t);
    let f = fixed_bytes(tv.fixed);
    let c = cred_bytes(tv.credential);
    let p = pres_bytes(tv.presentation);
    let v = vdf_bytes(tv.vdf);
    let b = bond_bytes(tv.bond_owner_id);
    let d = token_bytes(tv);
    let d2 = d.take(l);
    lemma_fixed_layout(t, Seq::empty());
    assert(f.len() == 569) by {
        assert(f + Seq::<u8>::empty() =~= f);
    }
    assert(d =~= f + (c + p + v + b));
    lemma_parse_fixed(t, c + p + v + b);
    assert(d =~= f + c + (p + v + b));
    lemma_parse_cred(f, t.credential, p + v + b);
    assert(d =~= (f + c) + p + (v + b));
    lemma_parse_pres(f + c, t.presentation, v + b);
    assert(d =~= (f + c + p) + v + (b + Seq::<u8>::empty()));
    lemma_parse_vdf(f + c + p, t.vdf_proof, b + Seq::<u8>::empty());
    assert(d =~= (f + c + p + v) + b + Seq::<u8>::empty());
    lemma_parse_bond(f + c + p + v, t.bond_owner_id, Seq::empty());
    let p1: int = 569 + c.len() as int;
    let p2: int = p1 + p.len() as int;
    let p3: int = p2 + v.len() as int;
    assert(p3 + b.len() == d.len());
    lemma_fixed_prefix(d, l);
    if l >= 569 {
        lemma_cred_prefix(d, 569, l);
        if l >= p1 {
            lemma_pres_prefix(d, p1, l);
            if l >= p2 {
                lemma_vdf_prefix(d, p2, l);
                if l >= p3 {
                    lemma_bond_prefix(d, p3, l);
                }
            }
        }
    }
}

/// 32 zero bytes.
pub open spec fn zeros32() -> Seq<u8> {
    Seq::new(32, |i: int| 0u8)
}

/// A token with its owner secret zeroed and, if it has a credential, the
/// credential's blinding factor zeroed.
pub open spec fn public_view(tv: TokenView) -> TokenView {
    TokenView {
        fixed: FixedView { owner_secret: zeros32(), ..tv.fixed },
        credential: match tv.credential {
            Some(c) => Some(CredentialView { blinding: zeros32(), ..c }),
            None => None,
        },
        ..tv
    }
}

proof fn lemma_zeroed_prefix(x: Seq<u8>, y: Seq<u8>, start: int)
    requires
        0 <= start,
        start + 32 <= x.len(),
    ensures
        zeroed(x + y, start, 32) == zeroed(x, start, 32) + y,
{
    assert(zeroed(x + y, start, 32) =~= zeroed(x, start, 32) + y);
}

proof fn lemma_zeroed_middle(x: Seq<u8>, m: Seq<u8>)
    requires
        m.len() == 32,
    ensures
        zeroed(x + m, x.len() as int, 32) == x + zeros32(),
{
    assert(zeroed(x + m, x.len() as int, 32) =~= x + zeros32());
}

/// The fixed part with the owner secret zeroed.
#[verifier::spinoff_prover]
#[verifier::rlimit(60)]
proof fn lemma_fixed_zeroed(t: ProofCarryingToken)
    ensures
        fixed_bytes(public_view(token_view(t)).fixed) == zeroed(fixed_bytes(token_view(t).fixed), OWNER_SECRET_OFFSET as int, 32),
        fixed_bytes(token_view(t).fixed).len() == 569,
{
    let f = token_view(t).fixed;
    let p = magic() + seq![VERSION] + f.token_id + spec_u64_to_le_bytes(f.value) + f.value_commitment
        + f.vp_commitment + f.vp_response + f.sig_s + f.sig_e;
    let s = f.hash_chain_head
        + spec_u32_to_le_bytes(f.transfer_count) + spec_u32_to_le_bytes(f.recursion_bound)
        + f.fold_s + f.fold_e + f.fold_r + f.fold_pk + f.fold_state_hash + f.fold_pk_chain_hash
        + f.fold_genesis_state_hash + f.fold_current_owner_hash + spec_u32_to_le_bytes(f.fold_steps)
        + f.genesis_owner_hash;
    vstd::bytes::lemma_auto_spec_u64_to_from_le_bytes();
    vstd::bytes::lemma_auto_spec_u32_to_from_le_bytes();
    assert(p.len() == 205);
    assert(fixed_bytes(f) =~= (p + f.owner_secret) + s);
    assert(fixed_bytes(public_view(token_view(t)).fixed) =~= (p + zeros32()) + s);
    lemma_zeroed_prefix(p + f.owner_secret, s, 205);
    lemma_zeroed_middle(p, f.owner_secret);
}

/// The transmitted encoding of a token is the encoding of the token with
/// its owner secret and credential blinding factor zeroed.
#[verifier::spinoff_prover]
#[verifier::rlimit(60)]
pub proof fn law_public_encoding_hides_secrets(t: ProofCarryingToken)
    ensures
        redacted(token_bytes(token_view(t))) == token_bytes(public_view(token_view(t))),
{
    let tv = token_view(t);
    let pv = public_view(tv);
    let f = fixed_bytes(tv.fixed);
    let f2 = fixed_bytes(pv.fixed);
    lemma_fixed_zeroed(t);
    let c = cred_bytes(tv.credential);
    let c2 = cred_bytes(pv.credential);
    let tail = pres_bytes(tv.presentation) + vdf_bytes(tv.vdf) + bond_bytes(tv.bond_owner_id);
    let b = token_bytes(tv);
    assert(b =~= f + (c + tail));
    lemma_zeroed_prefix(f, c + tail, 205);
    let b1 = zeroed(b, OWNER_SECRET_OFFSET as int, 32);
    assert(b1 == f2 + (c + tail));
    assert(b1[569] == c[0]);
    assert(token_bytes(pv) =~= f2 + (c2 + tail));
    match tv.credential {
        None => {
            assert(c2 == c);
        },
        Some(cv) => {
            let head = f2 + seq![1u8] + cv.commitment;
            let rest2 = cred_bytes(tv.credential).subrange(65, c.len() as int) + tail;
            assert(c =~= seq![1u8] + cv.commitment + cv.blinding + c.subrange(65, c.len() as int));
            assert(b1 =~= (head + cv.blinding) + rest2);
            assert(head.len() == 602);
            lemma_zeroed_prefix(head + cv.blinding, rest2, 602);
            lemma_zeroed_middle(head, cv.blinding);
            assert(c2 =~= seq![1u8] + cv.commitment + zeros32() + c.subrange(65, c.len() as int));
            assert(token_bytes(pv) =~= (head + zeros32()) + rest2);
        },
    }
}

} // verus!
