use curve25519_dalek::ristretto::CompressedRistretto;
use curve25519_dalek::Scalar;
use specter::credential::credential::Attributes;
use specter::credential::issuer::{verify_credential_signature, Issuer};
use specter::credential::presentation::{
    create_presentation, verify_presentation, verify_presentation_checked, ATTR_AGE_OVER_18, ATTR_JURISDICTION, ATTR_KYC_PASSED, ATTR_NOT_SANCTIONED,
};
use specter::credential::revocation::{is_expired, RevocationList};

fn attrs(jurisdiction: &str, age: bool, expires_at: u64) -> Attributes {
    Attributes { kyc_passed: true, not_sanctioned: true, jurisdiction: jurisdiction.to_string(), age_over_18: age, expires_at }
}

fn add_base(p: &[u8; 32]) -> [u8; 32] {
    (CompressedRistretto(*p).decompress().unwrap() + curve25519_dalek::constants::RISTRETTO_BASEPOINT_POINT)
        .compress()
        .to_bytes()
}

#[test]
fn test_attributes_to_scalars() {
    let a = attrs("EU", true, 0);
    let scalars = a.to_scalars();
    assert_eq!(scalars.len(), 4);
    assert_eq!(scalars[0], Scalar::from(1u64).to_bytes());
    assert_eq!(scalars[2], Scalar::from(1u64).to_bytes());
}

#[test]
fn jurisdiction_codes() {
    let codes: Vec<u64> = ["EU", "US", "BR", "UK", "CH", "JP", "XX"].iter().map(|j| attrs(j, true, 0).jurisdiction_code()).collect();
    assert_eq!(codes, vec![1, 2, 3, 4, 5, 6, 99]);
    let s = Attributes { kyc_passed: false, not_sanctioned: true, jurisdiction: "JP".to_string(), age_over_18: false, expires_at: 0 }
        .to_scalars();
    assert_eq!(s[0], Scalar::from(0u64).to_bytes());
    assert_eq!(s[1], Scalar::from(1u64).to_bytes());
    assert_eq!(s[2], Scalar::from(6u64).to_bytes());
    assert_eq!(s[3], Scalar::from(0u64).to_bytes());
    assert_eq!(Attributes::count(), 4);
}

#[test]
fn test_issue_and_verify() {
    let issuer = Issuer::new();
    let cred = issuer.issue(&attrs("EU", true, 0));
    assert!(verify_credential_signature(&cred));
    assert!(issuer.verify_credential(&cred));
}

#[test]
fn test_different_attributes_valid() {
    let issuer = Issuer::new();
    let cred1 = issuer.issue(&attrs("US", true, 0));
    let cred2 = issuer.issue(&attrs("BR", false, 0));
    assert!(verify_credential_signature(&cred1));
    assert!(verify_credential_signature(&cred2));
    assert_ne!(cred1.commitment, cred2.commitment);
}

#[test]
fn issuer_test_wrong_issuer_fails() {
    let issuer1 = Issuer::new();
    let issuer2 = Issuer::new();
    let mut cred = issuer1.issue(&attrs("EU", true, 0));
    cred.issuer_pk = issuer2.public;
    assert!(!verify_credential_signature(&cred));
}

#[test]
fn test_tampered_commitment_fails() {
    let issuer = Issuer::new();
    let mut cred = issuer.issue(&attrs("EU", true, 0));
    cred.commitment = add_base(&cred.commitment);
    assert!(!verify_credential_signature(&cred));
}

#[test]
fn test_many_credentials() {
    let issuer = Issuer::new();
    for _ in 0..20 {
        let cred = issuer.issue(&attrs("EU", true, 0));
        assert!(verify_credential_signature(&cred));
    }
}

#[test]
fn issued_credential_commits_to_its_attributes() {
    let issuer = Issuer::new();
    let a = attrs("CH", true, 77);
    let cred = issuer.issue(&a);
    assert_eq!(cred.issuer_pk, issuer.public_key());
    assert_eq!(cred.attributes.jurisdiction, "CH");
    assert_eq!(cred.attributes.expires_at, 77);
    let expected = issuer.params_of().commit_vector(&a.to_scalars(), &cred.blinding);
    assert_eq!(cred.commitment, expected);
}

// ── Presentations ───────────────────────────────────────────────────────

fn test_cred() -> (Issuer, specter::credential::credential::Credential) {
    let issuer = Issuer::new();
    let cred = issuer.issue(&attrs("EU", true, 0));
    (issuer, cred)
}

#[test]
fn test_disclose_kyc_only() {
    let (issuer, cred) = test_cred();
    let presentation = create_presentation(&cred, &[ATTR_KYC_PASSED], &issuer.pedersen);
    assert!(verify_presentation(&presentation, &issuer.pedersen));
    assert_eq!(presentation.disclosed.len(), 1);
    assert_eq!(presentation.disclosed[0].0, ATTR_KYC_PASSED);
    assert_eq!(presentation.disclosed[0].1, Scalar::from(1u64).to_bytes());
}

#[test]
fn test_disclose_multiple() {
    let (issuer, cred) = test_cred();
    let presentation = create_presentation(&cred, &[ATTR_KYC_PASSED, ATTR_NOT_SANCTIONED], &issuer.pedersen);
    assert!(verify_presentation(&presentation, &issuer.pedersen));
    assert_eq!(presentation.disclosed.len(), 2);
}

#[test]
fn test_disclose_all() {
    let (issuer, cred) = test_cred();
    let presentation = create_presentation(
        &cred,
        &[ATTR_KYC_PASSED, ATTR_NOT_SANCTIONED, ATTR_JURISDICTION, ATTR_AGE_OVER_18],
        &issuer.pedersen,
    );
    assert!(verify_presentation(&presentation, &issuer.pedersen));
    assert_eq!(presentation.disclosed.len(), 4);
    assert_eq!(presentation.proof_response.len(), 1);
}

#[test]
fn test_disclose_none() {
    let (issuer, cred) = test_cred();
    let presentation = create_presentation(&cred, &[], &issuer.pedersen);
    assert!(verify_presentation(&presentation, &issuer.pedersen));
    assert_eq!(presentation.disclosed.len(), 0);
    assert_eq!(presentation.proof_response.len(), 5);
}

#[test]
fn presentation_test_wrong_issuer_fails() {
    let (issuer, cred) = test_cred();
    let other_issuer = Issuer::new();
    let mut presentation = create_presentation(&cred, &[ATTR_KYC_PASSED], &issuer.pedersen);
    presentation.issuer_pk = other_issuer.public;
    assert!(!verify_presentation(&presentation, &issuer.pedersen));
}

#[test]
fn test_tampered_disclosed_value_fails() {
    let (issuer, cred) = test_cred();
    let mut presentation = create_presentation(&cred, &[ATTR_KYC_PASSED], &issuer.pedersen);
    presentation.disclosed[0].1 = Scalar::from(0u64).to_bytes();
    assert!(!verify_presentation(&presentation, &issuer.pedersen));
}

#[test]
fn test_many_presentations_valid() {
    let (issuer, cred) = test_cred();
    for _ in 0..15 {
        let presentation = create_presentation(&cred, &[ATTR_NOT_SANCTIONED], &issuer.pedersen);
        assert!(verify_presentation(&presentation, &issuer.pedersen));
    }
}

#[test]
fn presentation_copies_credential_fields() {
    let (issuer, cred) = test_cred();
    let p = create_presentation(&cred, &[ATTR_JURISDICTION], &issuer.pedersen);
    assert_eq!(p.commitment, cred.commitment);
    assert_eq!(p.issuer_pk, cred.issuer_pk);
    assert_eq!(p.cred_signature_s, cred.signature_s);
    assert_eq!(p.cred_signature_e, cred.signature_e);
    assert_eq!(p.disclosed[0], (ATTR_JURISDICTION, Scalar::from(1u64).to_bytes()));
    assert_eq!(p.proof_response.len(), 4);
}

#[test]
fn tampered_presentation_challenge_fails() {
    let (issuer, cred) = test_cred();
    let mut p = create_presentation(&cred, &[ATTR_KYC_PASSED], &issuer.pedersen);
    p.proof_challenge = Scalar::from(7u64).to_bytes();
    assert!(!verify_presentation(&p, &issuer.pedersen));
}

// ── Revocation ──────────────────────────────────────────────────────────

#[test]
fn test_revoke_and_check() {
    let issuer = Issuer::new();
    let cred = issuer.issue(&attrs("EU", true, 0));
    let mut list = RevocationList::new();
    assert!(!list.is_revoked(&cred));
    list.revoke(&cred);
    assert!(list.is_revoked(&cred));
}

#[test]
fn test_different_credential_not_revoked() {
    let issuer = Issuer::new();
    let cred1 = issuer.issue(&attrs("EU", true, 0));
    let cred2 = issuer.issue(&attrs("EU", true, 0));
    let mut list = RevocationList::new();
    list.revoke(&cred1);
    assert!(list.is_revoked(&cred1));
    assert!(!list.is_revoked(&cred2));
}

#[test]
fn test_expiry_no_expiry() {
    let issuer = Issuer::new();
    let cred = issuer.issue(&attrs("EU", true, 0));
    assert!(!is_expired(&cred, 999999999));
}

#[test]
fn test_expiry_not_yet_expired() {
    let issuer = Issuer::new();
    let cred = issuer.issue(&attrs("EU", true, 1000));
    assert!(!is_expired(&cred, 500));
}

#[test]
fn test_expiry_expired() {
    let issuer = Issuer::new();
    let cred = issuer.issue(&attrs("EU", true, 1000));
    assert!(is_expired(&cred, 1001));
    assert!(!is_expired(&cred, 1000));
}

#[test]
fn test_revocation_list_count() {
    let issuer = Issuer::new();
    let mut list = RevocationList::new();
    for _ in 0..5 {
        let cred = issuer.issue(&attrs("EU", true, 0));
        list.revoke(&cred);
    }
    assert_eq!(list.count(), 5);
}

#[test]
fn revoking_twice_counts_once() {
    let issuer = Issuer::new();
    let cred = issuer.issue(&attrs("EU", true, 0));
    let mut list = RevocationList::new();
    list.revoke(&cred);
    list.revoke(&cred);
    assert_eq!(list.count(), 1);
}

#[test]
fn checked_verification_refuses_malformed_presentations() {
    let (issuer, cred) = test_cred();
    let presentation = create_presentation(&cred, &[ATTR_KYC_PASSED], &issuer.pedersen);
    assert_eq!(verify_presentation_checked(&presentation, &issuer.pedersen), Some(true));
    let mut bad_index = presentation.clone();
    bad_index.disclosed[0].0 = 7;
    assert_eq!(verify_presentation_checked(&bad_index, &issuer.pedersen), None);
    let mut few = presentation.clone();
    few.proof_response.truncate(1);
    assert_eq!(verify_presentation_checked(&few, &issuer.pedersen), None);
}

#[test]
fn verification_answers_false_on_malformed_presentations() {
    let (issuer, cred) = test_cred();
    let presentation = create_presentation(&cred, &[ATTR_KYC_PASSED], &issuer.pedersen);
    let mut bad_index = presentation.clone();
    bad_index.disclosed[0].0 = 7;
    assert!(!verify_presentation(&bad_index, &issuer.pedersen));
    let mut few = presentation.clone();
    few.proof_response.truncate(1);
    assert!(!verify_presentation(&few, &issuer.pedersen));
    let mut none = presentation.clone();
    none.proof_response.clear();
    assert!(!verify_presentation(&none, &issuer.pedersen));
}
