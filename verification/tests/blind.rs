use curve25519_dalek::ristretto::CompressedRistretto;
use curve25519_dalek::Scalar;
use specter::blind::clause_blind::{self, clause_blind_challenge, clause_unblind};
use specter::blind::dkg::{
    dkg_round1, dkg_round2, dkg_round3, proactive_reshare, run_dkg, verify_pok, DkgError, ProofOfKnowledge, SignerId,
    ThresholdKeyset,
};
use specter::blind::schnorr_blind::{blind_challenge, new_session, unblind_signature, verify, RateLimitedSigner};
use specter::blind::types::SignerKeypair;
use specter::group::random_scalar;
use specter::primitives::shamir::{reconstruct_secret, split_secret, Share};
use specter::table::Table;

fn base_mul(s: &[u8; 32]) -> [u8; 32] {
    (Scalar::from_canonical_bytes(*s).unwrap() * curve25519_dalek::constants::RISTRETTO_BASEPOINT_POINT)
        .compress()
        .to_bytes()
}

fn sign_blind(signer: &SignerKeypair, message: &[u8]) -> specter::blind::types::BlindSignature {
    let (session, r) = new_session();
    let (factors, bc) = blind_challenge(&r, &signer.public, message).unwrap();
    let s_prime = session.respond(&bc, signer.secret());
    unblind_signature(&s_prime, &factors, &r, &signer.public, message).unwrap()
}

// ── Blind Schnorr ───────────────────────────────────────────────────────

#[test]
fn test_full_protocol_roundtrip() {
    let signer = SignerKeypair::generate();
    let message = b"transfer 100 units to Alice";
    let (session, r) = new_session();
    let (factors, blinded_challenge) = blind_challenge(&r, &signer.public, message).unwrap();
    let s_prime = session.respond(&blinded_challenge, signer.secret());
    let sig = unblind_signature(&s_prime, &factors, &r, &signer.public, message).unwrap();
    assert!(verify(&signer.public, message, &sig));
}

#[test]
fn schnorr_blind_test_wrong_message_fails() {
    let signer = SignerKeypair::generate();
    let sig = sign_blind(&signer, b"correct message");
    assert!(!verify(&signer.public, b"wrong message", &sig));
}

#[test]
fn test_wrong_pubkey_fails() {
    let signer = SignerKeypair::generate();
    let other = SignerKeypair::generate();
    let message = b"some message";
    let sig = sign_blind(&signer, message);
    assert!(!verify(&other.public, message, &sig));
}

#[test]
fn test_unlinkability_structure() {
    let signer = SignerKeypair::generate();
    let message = b"same message";
    let sig1 = sign_blind(&signer, message);
    let sig2 = sign_blind(&signer, message);
    assert!(verify(&signer.public, message, &sig1));
    assert!(verify(&signer.public, message, &sig2));
    assert_ne!(sig1, sig2);
}

/// A dealer key set: a random group secret split 2-of-3 into Shamir shares.
fn dealer_keyset() -> ([u8; 32], Vec<Share>) {
    let secret = random_scalar();
    let shares = split_secret(&secret, 2, 3).unwrap();
    (base_mul(&secret), shares)
}

/// Blind-signs with the key that the chosen signers' shares reconstruct.
fn threshold_blind_sign(shares: &[Share], message: &[u8]) -> specter::blind::types::BlindSignature {
    let secret = reconstruct_secret(shares).unwrap();
    sign_blind(&SignerKeypair::from_secret(secret), message)
}

#[test]
fn test_blind_signature_unlinkable() {
    let (group_public, shares) = dealer_keyset();
    let message = b"same-message";
    let chosen = vec![shares[0].clone(), shares[1].clone()];
    let sig1 = threshold_blind_sign(&chosen, message);
    let sig2 = threshold_blind_sign(&chosen, message);
    assert!(verify(&group_public, message, &sig1));
    assert!(verify(&group_public, message, &sig2));
    assert_ne!(sig1, sig2, "two blind signatures of the same message must differ (unlinkable)");
}

#[test]
fn test_different_messages_both_valid() {
    let signer = SignerKeypair::generate();
    let msg1 = b"message one";
    let sig1 = sign_blind(&signer, msg1);
    let msg2 = b"message two";
    let sig2 = sign_blind(&signer, msg2);
    assert!(verify(&signer.public, msg1, &sig1));
    assert!(verify(&signer.public, msg2, &sig2));
    assert!(!verify(&signer.public, msg1, &sig2));
    assert!(!verify(&signer.public, msg2, &sig1));
}

#[test]
fn test_many_signatures_all_valid() {
    let signer = SignerKeypair::generate();
    for i in 0..20 {
        let message = format!("token-{}", i);
        let sig = sign_blind(&signer, message.as_bytes());
        assert!(verify(&signer.public, message.as_bytes(), &sig), "failed at i={}", i);
    }
}

#[test]
fn test_rate_limited_signer_blocks_concurrent_session() {
    let kp = SignerKeypair::generate();
    let mut signer = RateLimitedSigner::new(kp);
    {
        let first = signer.new_session();
        assert!(first.is_some(), "first session must succeed");
        assert!(signer.new_session().is_none(), "a second session while the first is open is refused");
        signer.finish_session(first.unwrap());
    }
    let second = signer.new_session();
    assert!(second.is_some(), "session after the first is closed must succeed");
}

#[test]
fn test_rate_limited_signer_sequential_sessions() {
    let kp = SignerKeypair::generate();
    let mut signer = RateLimitedSigner::new(kp);
    for _ in 0..100 {
        let s = signer.new_session();
        assert!(s.is_some());
        signer.finish_session(s.unwrap());
    }
}

#[test]
fn rate_limited_signer_signs_under_its_key() {
    let kp = SignerKeypair::generate();
    let pk = kp.public;
    let mut signer = RateLimitedSigner::new(kp);
    assert_eq!(signer.public(), pk);
    let guard = signer.new_session().unwrap();
    let msg = b"rate limited";
    let (factors, bc) = blind_challenge(&guard.commitment, &pk, msg).unwrap();
    let s_prime = guard.session.respond(&bc, signer.keypair().secret());
    let sig = unblind_signature(&s_prime, &factors, &guard.commitment, &pk, msg).unwrap();
    signer.end_session();
    assert!(verify(&pk, msg, &sig));
    assert!(signer.new_session().is_some());
}

#[test]
fn blind_challenge_rejects_undecodable_points() {
    let signer = SignerKeypair::generate();
    let bad = [0xffu8; 32];
    assert!(blind_challenge(&bad, &signer.public, b"m").is_none());
    assert!(blind_challenge(&signer.public, &bad, b"m").is_none());
    assert!(!verify(&bad, b"m", &sign_blind(&signer, b"m")));
}

#[test]
fn keypair_public_is_secret_times_base() {
    let kp = SignerKeypair::generate();
    assert_eq!(kp.public, base_mul(kp.secret()));
    let s = random_scalar();
    let kp2 = SignerKeypair::from_secret(s);
    assert_eq!(*kp2.secret(), s);
    assert_eq!(kp2.public_key(), base_mul(&s));
}

// ── Clause blind signatures ─────────────────────────────────────────────

fn clause_sign(signer: &SignerKeypair, message: &[u8]) -> specter::blind::types::BlindSignature {
    let (session, r0, r1) = signer.new_clause_session();
    let (factors, e0, e1) = clause_blind_challenge(&r0, &r1, &signer.public, message).unwrap();
    let (s0, s1) = session.respond(&e0, &e1, signer.secret());
    clause_unblind(&s0, &s1, &factors, &r0, &r1, &signer.public, message).unwrap()
}

#[test]
fn test_clause_blind_roundtrip() {
    let signer = SignerKeypair::generate();
    let message = b"clause blind signed token";
    let sig = clause_sign(&signer, message);
    assert!(clause_blind::verify(&signer.public, message, &sig));
}

#[test]
fn test_clause_wrong_message_fails() {
    let signer = SignerKeypair::generate();
    let sig = clause_sign(&signer, b"correct");
    assert!(!clause_blind::verify(&signer.public, b"wrong", &sig));
}

#[test]
fn test_clause_wrong_pubkey_fails() {
    let signer = SignerKeypair::generate();
    let other = SignerKeypair::generate();
    let message = b"test";
    let sig = clause_sign(&signer, message);
    assert!(!clause_blind::verify(&other.public, message, &sig));
}

#[test]
fn test_clause_unlinkability() {
    let signer = SignerKeypair::generate();
    let msg = b"same message";
    let sig1 = clause_sign(&signer, msg);
    let sig2 = clause_sign(&signer, msg);
    assert!(clause_blind::verify(&signer.public, msg, &sig1));
    assert!(clause_blind::verify(&signer.public, msg, &sig2));
    assert_ne!(sig1, sig2);
}

#[test]
fn test_clause_many_signatures() {
    let signer = SignerKeypair::generate();
    for i in 0..20 {
        let msg = format!("token-{}", i);
        let sig = clause_sign(&signer, msg.as_bytes());
        assert!(clause_blind::verify(&signer.public, msg.as_bytes(), &sig), "failed at i={}", i);
    }
}

#[test]
fn clause_signature_is_not_a_plain_blind_signature() {
    let signer = SignerKeypair::generate();
    let sig = clause_sign(&signer, b"domain");
    assert!(!verify(&signer.public, b"domain", &sig));
}

// ── Distributed key generation ──────────────────────────────────────────

fn group_public(keysets: &Table<SignerId, ThresholdKeyset>, id: SignerId) -> [u8; 32] {
    keysets.get(&id).unwrap().group_public
}

fn combined(keysets: &Table<SignerId, ThresholdKeyset>, ids: &[SignerId]) -> ThresholdKeyset {
    let first = keysets.get(&ids[0]).unwrap();
    let mut shares = Table::new();
    let mut public_shares = Table::new();
    for &id in ids {
        let ks = keysets.get(&id).unwrap();
        shares.insert(id, *ks.shares.get(&id).unwrap());
        public_shares.insert(id, *first.public_shares.get(&id).unwrap());
    }
    ThresholdKeyset { group_public: first.group_public, threshold: first.threshold, total: first.total, shares, public_shares }
}

#[test]
fn test_dkg_2_of_3() {
    let keysets = run_dkg(2, &[1, 2, 3]).unwrap();
    let pk1 = group_public(&keysets, 1);
    let pk2 = group_public(&keysets, 2);
    let pk3 = group_public(&keysets, 3);
    assert_eq!(pk1, pk2);
    assert_eq!(pk2, pk3);
}

#[test]
fn test_dkg_3_of_5() {
    let keysets = run_dkg(3, &[1, 2, 3, 4, 5]).unwrap();
    let pks: Vec<[u8; 32]> = (1..=5u64).map(|id| group_public(&keysets, id)).collect();
    assert!(pks.windows(2).all(|w| w[0] == w[1]));
}

#[test]
fn test_dkg_no_single_party_knows_secret() {
    let keysets = run_dkg(2, &[1, 2, 3]).unwrap();
    let share1 = keysets.get(&1).unwrap().shares.get(&1).unwrap().y;
    let share2 = keysets.get(&2).unwrap().shares.get(&2).unwrap().y;
    assert_ne!(share1, share2);
}

#[test]
fn test_dkg_invalid_params() {
    assert!(run_dkg(0, &[1, 2, 3]).is_err());
    assert!(run_dkg(5, &[1, 2, 3]).is_err());
}

#[test]
fn dkg_invalid_params_error_value() {
    assert_eq!(run_dkg(5, &[1, 2, 3]).err(), Some(DkgError::InvalidParams { threshold: 5, total: 3 }));
    assert_eq!(run_dkg(1, &[]).err(), Some(DkgError::InvalidParams { threshold: 1, total: 0 }));
}

#[test]
fn test_pok_valid_proof_verifies() {
    let (participant, pok) = dkg_round1(1, 2);
    assert!(verify_pok(participant.id, &participant.commitments()[0], &pok), "valid PoK should verify");
}

#[test]
fn test_pok_multiple_participants_all_verify() {
    for id in 1..=5 {
        let (participant, pok) = dkg_round1(id, 3);
        assert!(
            verify_pok(participant.id, &participant.commitments()[0], &pok),
            "valid PoK for participant {} should verify",
            id
        );
    }
}

#[test]
fn test_pok_forged_wrong_scalar_rejected() {
    let (participant, _pok) = dkg_round1(1, 2);
    let forged = ProofOfKnowledge { r: base_mul(&random_scalar()), s: random_scalar() };
    assert!(!verify_pok(participant.id, &participant.commitments()[0], &forged), "forged PoK with random s should be rejected");
}

#[test]
fn test_pok_forged_wrong_id_rejected() {
    let (participant, pok) = dkg_round1(1, 2);
    let wrong_id: SignerId = 2;
    assert!(!verify_pok(wrong_id, &participant.commitments()[0], &pok), "PoK verified with wrong participant ID should be rejected");
}

#[test]
fn test_pok_forged_wrong_commitment_rejected() {
    let (participant_a, pok_a) = dkg_round1(1, 2);
    let (participant_b, _pok_b) = dkg_round1(1, 2);
    assert!(!verify_pok(1, &participant_b.commitments()[0], &pok_a), "PoK verified against wrong commitment should be rejected");
    assert!(verify_pok(1, &participant_a.commitments()[0], &pok_a));
}

#[test]
fn test_proactive_reshare_preserves_group_pk() {
    let keysets = run_dkg(2, &[1, 2, 3]).unwrap();
    let keyset = combined(&keysets, &[1, 2, 3]);
    let original_pk = keyset.group_public;
    let original_shares: Vec<(SignerId, [u8; 32])> =
        (1..=3u64).map(|id| (id, keyset.shares.get(&id).unwrap().y)).collect();
    let reshared = proactive_reshare(keyset).unwrap();
    assert_eq!(reshared.group_public, original_pk);
    for (id, old_y) in original_shares {
        let new_y = reshared.shares.get(&id).unwrap().y;
        assert_ne!(new_y, old_y, "share {} was not re-randomized", id);
    }
}

#[test]
fn test_proactive_reshare_chained() {
    let keysets = run_dkg(2, &[1, 2, 3]).unwrap();
    let mut keyset = combined(&keysets, &[1, 2, 3]);
    let initial_pk = keyset.group_public;
    for _round in 0..3 {
        let reshared = proactive_reshare(keyset).unwrap();
        assert_eq!(reshared.group_public, initial_pk);
        for id in 1..=3u64 {
            let sh = reshared.shares.get(&id).unwrap();
            assert_eq!(*reshared.public_shares.get(&id).unwrap(), base_mul(&sh.y));
        }
        keyset = reshared;
    }
}

#[test]
fn test_dkg_with_pok_round3_rejects_invalid_pok() {
    let ids: Vec<SignerId> = vec![1, 2, 3];
    let threshold = 2;
    let mut participants = Vec::new();
    let mut all_poks = Table::new();
    for &id in &ids {
        let (p, pok) = dkg_round1(id, threshold);
        participants.push(p);
        all_poks.insert(id, pok);
    }
    let mut all_commitments = Table::new();
    for p in &participants {
        all_commitments.insert(p.id, p.commitments());
    }
    all_poks.insert(2, ProofOfKnowledge { r: base_mul(&random_scalar()), s: random_scalar() });
    let all_shares: Vec<Table<SignerId, [u8; 32]>> = participants.iter().map(|p| dkg_round2(p, &ids)).collect();
    let mut received = Table::new();
    for (k, _) in ids.iter().enumerate() {
        if k == 0 {
            continue;
        }
        received.insert(ids[k], *all_shares[k].get(&1).unwrap());
    }
    let result = dkg_round3(&participants[0], &received, &all_commitments, &all_poks);
    assert!(result.is_err(), "dkg_round3 should reject forged PoK");
    match result {
        Err(DkgError::InvalidProofOfKnowledge(id)) => assert_eq!(id, 2),
        Err(other) => panic!("expected InvalidProofOfKnowledge(2), got {:?}", other),
        Ok(_) => panic!("expected error, got Ok"),
    }
}

#[test]
fn dkg_public_shares_are_share_multiples() {
    let keysets = run_dkg(2, &[1, 2, 3]).unwrap();
    let ks = keysets.get(&1).unwrap();
    let sh = ks.shares.get(&1).unwrap();
    assert_eq!(*ks.public_shares.get(&1).unwrap(), base_mul(&sh.y));
    let mut one = [0u8; 32];
    one[0] = 1;
    assert_eq!(sh.x, one);
    assert!(CompressedRistretto(ks.group_public).decompress().is_some());
}

#[test]
fn test_dkg_rejects_wrong_degree_polynomial() {
    let threshold = 2;
    let ids = vec![1u64, 2, 3];
    let mut participants = Vec::new();
    let mut all_poks = Table::new();
    for &id in &ids {
        let (p, pok) = dkg_round1(id, threshold);
        participants.push(p);
        all_poks.insert(id, pok);
    }
    let mut all_commitments = Table::new();
    for p in &participants {
        let mut c = p.commitments();
        if p.id == 2 {
            c.pop();
        }
        all_commitments.insert(p.id, c);
    }
    let all_shares: Vec<Table<SignerId, [u8; 32]>> = participants.iter().map(|p| dkg_round2(p, &ids)).collect();
    let mut received = Table::new();
    for k in 1..ids.len() {
        received.insert(ids[k], *all_shares[k].get(&1).unwrap());
    }
    let result = dkg_round3(&participants[0], &received, &all_commitments, &all_poks);
    assert!(matches!(result, Err(DkgError::InvalidCommitmentLength { .. })), "DKG must reject wrong-degree polynomial");
}

#[test]
fn test_dkg_prevents_rogue_key_attack() {
    let (participant, _pok) = dkg_round1(1, 2);
    let forged = ProofOfKnowledge { r: base_mul(&random_scalar()), s: random_scalar() };
    assert!(!verify_pok(participant.id, &participant.commitments()[0], &forged), "forged rogue-key PoK must be rejected");
}

#[test]
fn dkg_any_two_shares_interpolate_to_the_group_key() {
    let keysets = run_dkg(2, &[1, 2, 3]).unwrap();
    let y = |id: u64| Scalar::from_canonical_bytes(keysets.get(&id).unwrap().shares.get(&id).unwrap().y).unwrap();
    let gpk = group_public(&keysets, 1);
    let b = curve25519_dalek::constants::RISTRETTO_BASEPOINT_POINT;
    // F(0) from the points 1 and 2: 2·F(1) − F(2).
    let s12 = Scalar::from(2u64) * y(1) - y(2);
    assert_eq!((s12 * b).compress().to_bytes(), gpk);
    // From the points 1 and 3: (3·F(1) − F(3)) / 2.
    let s13 = (Scalar::from(3u64) * y(1) - y(3)) * Scalar::from(2u64).invert();
    assert_eq!((s13 * b).compress().to_bytes(), gpk);
    // Each holder's public share in another's keyset is its share times B.
    let pub3_in_1 = *keysets.get(&1).unwrap().public_shares.get(&3).unwrap();
    assert_eq!(pub3_in_1, (y(3) * b).compress().to_bytes());
}

#[test]
fn reshared_shares_still_interpolate_to_the_group_key() {
    let keysets = run_dkg(2, &[1, 2, 3]).unwrap();
    let keyset = combined(&keysets, &[1, 2, 3]);
    let gpk = keyset.group_public;
    let reshared = proactive_reshare(keyset).unwrap();
    let y = |id: u64| Scalar::from_canonical_bytes(reshared.shares.get(&id).unwrap().y).unwrap();
    let b = curve25519_dalek::constants::RISTRETTO_BASEPOINT_POINT;
    let s23 = Scalar::from(3u64) * y(2) - Scalar::from(2u64) * y(3);
    assert_eq!((s23 * b).compress().to_bytes(), gpk);
}
