use curve25519_dalek::Scalar;
use specter::fold::accumulator::{
    create_initial_proof, create_initial_proof_with_pk, derive_owner_signing_key, derive_owner_signing_pk, fold_transfer, fold_transfer_signed,
    owner_pk_hash, verify_accumulated_proof, FoldError, TransferState,
};
use specter::fold::circuit::TransferCircuit;
use specter::fold::transcript::Transcript;

fn owner(seed: u8) -> ([u8; 32], [u8; 32]) {
    let secret = [seed; 32];
    let pk = derive_owner_signing_pk(&secret);
    (secret, pk)
}

fn genesis_state_for(token_id: [u8; 32], genesis_pk: &[u8; 32]) -> TransferState {
    TransferState { token_id, owner_hash: owner_pk_hash(genesis_pk), step: 0 }
}

#[test]
fn test_initial_proof_verifies() {
    let (_s0, pk0) = owner(1);
    let token_id = [42u8; 32];
    let gs = genesis_state_for(token_id, &pk0);
    let proof = create_initial_proof_with_pk(&gs, pk0);
    assert_eq!(proof.steps, 0);
    assert!(verify_accumulated_proof(&proof, &gs));
}

#[test]
fn test_single_fold_verifies() {
    let (s0, pk0) = owner(1);
    let (_s1, pk1) = owner(2);
    let token_id = [42u8; 32];
    let gs = genesis_state_for(token_id, &pk0);
    let p0 = create_initial_proof_with_pk(&gs, pk0);
    let sk0 = derive_owner_signing_key(&s0);
    let p1 = fold_transfer_signed(&p0, &sk0, pk1, &token_id, 50).unwrap();
    assert_eq!(p1.steps, 1);
    assert!(verify_accumulated_proof(&p1, &gs));
    assert_eq!(p1.current_owner_pk(), pk1);
}

#[test]
fn test_multiple_folds_verify() {
    let secrets: Vec<[u8; 32]> = (0..10).map(|i| [i as u8; 32]).collect();
    let pks: Vec<[u8; 32]> = secrets.iter().map(derive_owner_signing_pk).collect();
    let token_id = [99u8; 32];
    let gs = genesis_state_for(token_id, &pks[0]);
    let mut proof = create_initial_proof_with_pk(&gs, pks[0]);
    for i in 0..9 {
        let prev_sk = derive_owner_signing_key(&secrets[i]);
        proof = fold_transfer_signed(&proof, &prev_sk, pks[i + 1], &token_id, 50).unwrap();
    }
    assert_eq!(proof.steps, 9);
    assert!(verify_accumulated_proof(&proof, &gs));
    assert_eq!(proof.current_owner_pk(), pks[9]);
}

#[test]
fn test_forged_step_rejected() {
    let (s0, pk0) = owner(1);
    let (_s1, pk1) = owner(2);
    let token_id = [42u8; 32];
    let gs = genesis_state_for(token_id, &pk0);
    let p0 = create_initial_proof_with_pk(&gs, pk0);
    let sk0 = derive_owner_signing_key(&s0);
    let mut p1 = fold_transfer_signed(&p0, &sk0, pk1, &token_id, 50).unwrap();
    let mut s_bytes = p1.steps_chain[0].sig_s;
    s_bytes[0] ^= 0x01;
    p1.steps_chain[0].sig_s = Scalar::from_bytes_mod_order(s_bytes).to_bytes();
    assert!(!verify_accumulated_proof(&p1, &gs));
}

#[test]
fn test_forged_recipient_rejected() {
    let (s0, pk0) = owner(1);
    let (_s1, pk1) = owner(2);
    let (_s2, pk2) = owner(3);
    let token_id = [42u8; 32];
    let gs = genesis_state_for(token_id, &pk0);
    let p0 = create_initial_proof_with_pk(&gs, pk0);
    let sk0 = derive_owner_signing_key(&s0);
    let mut p1 = fold_transfer_signed(&p0, &sk0, pk1, &token_id, 50).unwrap();
    p1.steps_chain[0].new_owner_pk = pk2;
    assert!(!verify_accumulated_proof(&p1, &gs));
}

#[test]
fn test_wrong_prev_owner_rejected_at_fold_time() {
    let (_s0, pk0) = owner(1);
    let (_s1, pk1) = owner(2);
    let token_id = [42u8; 32];
    let gs = genesis_state_for(token_id, &pk0);
    let p0 = create_initial_proof_with_pk(&gs, pk0);
    let sk_wrong = derive_owner_signing_key(&[42u8; 32]);
    let err = fold_transfer_signed(&p0, &sk_wrong, pk1, &token_id, 50).unwrap_err();
    assert!(matches!(err, FoldError::PrevOwnerMismatch));
}

#[test]
fn test_tampered_genesis_pk_rejected() {
    let (s0, pk0) = owner(1);
    let (_s1, pk1) = owner(2);
    let (_s_other, pk_other) = owner(99);
    let token_id = [42u8; 32];
    let gs = genesis_state_for(token_id, &pk0);
    let p0 = create_initial_proof_with_pk(&gs, pk0);
    let sk0 = derive_owner_signing_key(&s0);
    let mut p1 = fold_transfer_signed(&p0, &sk0, pk1, &token_id, 50).unwrap();
    p1.genesis_owner_pk = pk_other;
    assert!(!verify_accumulated_proof(&p1, &gs));
}

#[test]
fn test_chain_bound_enforced() {
    let (s0, pk0) = owner(1);
    let (_s1, pk1) = owner(2);
    let token_id = [42u8; 32];
    let gs = genesis_state_for(token_id, &pk0);
    let p0 = create_initial_proof_with_pk(&gs, pk0);
    let sk0 = derive_owner_signing_key(&s0);
    let p1 = fold_transfer_signed(&p0, &sk0, pk1, &token_id, 1).unwrap();
    assert_eq!(p1.steps, 1);
    let sk1 = derive_owner_signing_key(&[2u8; 32]);
    let err = fold_transfer_signed(&p1, &sk1, pk0, &token_id, 1).unwrap_err();
    assert!(matches!(err, FoldError::BoundExceeded { .. }));
    assert_eq!(err, FoldError::BoundExceeded { steps: 1, bound: 1 });
}

#[test]
fn test_empty_chain_current_owner_is_genesis() {
    let (_s0, pk0) = owner(1);
    let gs = genesis_state_for([7u8; 32], &pk0);
    let proof = create_initial_proof_with_pk(&gs, pk0);
    assert_eq!(proof.current_owner_pk(), pk0);
}

#[test]
fn test_steps_count_consistency_enforced() {
    let (s0, pk0) = owner(1);
    let (_s1, pk1) = owner(2);
    let token_id = [42u8; 32];
    let gs = genesis_state_for(token_id, &pk0);
    let p0 = create_initial_proof_with_pk(&gs, pk0);
    let sk0 = derive_owner_signing_key(&s0);
    let mut p1 = fold_transfer_signed(&p0, &sk0, pk1, &token_id, 50).unwrap();
    p1.steps = 5;
    assert!(!verify_accumulated_proof(&p1, &gs));
}

#[test]
fn wrong_token_id_rejected() {
    let (s0, pk0) = owner(1);
    let (_s1, pk1) = owner(2);
    let gs = genesis_state_for([42u8; 32], &pk0);
    let p0 = create_initial_proof_with_pk(&gs, pk0);
    let p1 = fold_transfer_signed(&p0, &derive_owner_signing_key(&s0), pk1, &[42u8; 32], 50).unwrap();
    let other = genesis_state_for([43u8; 32], &pk0);
    assert!(!verify_accumulated_proof(&p1, &other));
}

#[test]
fn unsigned_fold_is_refused() {
    let (_s0, pk0) = owner(1);
    let gs = genesis_state_for([1u8; 32], &pk0);
    let p0 = create_initial_proof_with_pk(&gs, pk0);
    assert_eq!(fold_transfer(&p0, &gs, 10).unwrap_err(), FoldError::DeprecatedUnsignedFold);
    assert_eq!(fold_transfer(&p0, &gs, 0).unwrap_err(), FoldError::BoundExceeded { steps: 0, bound: 0 });
}

#[test]
fn owner_key_derivation_is_deterministic_and_hashes_differ() {
    let (_, a) = owner(5);
    let (_, b) = owner(5);
    let (_, c) = owner(6);
    assert_eq!(a, b);
    assert_ne!(a, c);
    assert_ne!(owner_pk_hash(&a), a);
    assert_eq!(owner_pk_hash(&a), owner_pk_hash(&b));
    let gs = genesis_state_for([0u8; 32], &a);
    let p = create_initial_proof_with_pk(&gs, a);
    assert_eq!(p.genesis_owner_pk_hash(), owner_pk_hash(&a));
}

#[test]
fn transfer_state_bytes_layout() {
    let st = TransferState { token_id: [9u8; 32], owner_hash: [8u8; 32], step: 3 };
    let b = st.to_bytes();
    assert_eq!(b.len(), 68);
    assert_eq!(&b[0..32], &[9u8; 32]);
    assert_eq!(&b[32..64], &[8u8; 32]);
    assert_eq!(&b[64..68], &3u32.to_le_bytes());
}

#[test]
fn transfer_circuit_arity() {
    let c = TransferCircuit::new(5);
    assert_eq!(c.arity(), 1);
    assert_eq!(TransferCircuit::blank().arity(), 1);
}

// ── Transcript ──────────────────────────────────────────────────────────

#[test]
fn test_transcript_deterministic() {
    let mut t1 = Transcript::new(b"test");
    t1.absorb(b"data", b"hello");
    let c1 = t1.challenge(b"ch");
    let mut t2 = Transcript::new(b"test");
    t2.absorb(b"data", b"hello");
    let c2 = t2.challenge(b"ch");
    assert_eq!(c1, c2);
}

#[test]
fn test_different_data_different_challenge() {
    let mut t1 = Transcript::new(b"test");
    t1.absorb(b"data", b"hello");
    let c1 = t1.challenge(b"ch");
    let mut t2 = Transcript::new(b"test");
    t2.absorb(b"data", b"world");
    let c2 = t2.challenge(b"ch");
    assert_ne!(c1, c2);
}

#[test]
fn test_different_domain_different_challenge() {
    let mut t1 = Transcript::new(b"domain-a");
    t1.absorb(b"data", b"same");
    let c1 = t1.challenge(b"ch");
    let mut t2 = Transcript::new(b"domain-b");
    t2.absorb(b"data", b"same");
    let c2 = t2.challenge(b"ch");
    assert_ne!(c1, c2);
}

#[test]
fn transcript_challenges_chain_and_squeeze() {
    let mut t = Transcript::new(b"x");
    let c1 = t.challenge(b"ch");
    let c2 = t.challenge(b"ch");
    assert_ne!(c1, c2);
    let mut out1 = [0u8; 16];
    let mut out2 = [0u8; 16];
    t.squeeze_bytes(b"s", &mut out1);
    t.squeeze_bytes(b"s", &mut out2);
    assert_ne!(out1, out2);
    assert_ne!(out1, [0u8; 16]);
}

#[test]
fn test_transcript_domain_separation() {
    let mut t1 = Transcript::new(b"domain-a");
    t1.absorb(b"data", b"hello");
    let c1 = t1.challenge(b"ch");
    let mut t2 = Transcript::new(b"domain-b");
    t2.absorb(b"data", b"hello");
    let c2 = t2.challenge(b"ch");
    assert_ne!(c1, c2, "different domains must yield different challenges");
}

#[test]
fn initial_proof_reads_owner_key_or_falls_back_to_identity() {
    let pk = curve25519_dalek::constants::RISTRETTO_BASEPOINT_COMPRESSED.to_bytes();
    let gs = TransferState { token_id: [3u8; 32], owner_hash: pk, step: 0 };
    let p = create_initial_proof(&gs);
    assert_eq!(p.genesis_owner_pk, pk);
    assert_eq!(p.steps, 0);
    assert!(p.steps_chain.is_empty());
    let bad = TransferState { token_id: [3u8; 32], owner_hash: [0xffu8; 32], step: 0 };
    let q = create_initial_proof(&bad);
    assert_eq!(q.genesis_owner_pk, [0u8; 32]);
}
