use std::collections::HashMap;
use sha2::Digest;
use curve25519_dalek::Scalar;
use specter::group::random_scalar;
use specter::net::attestation::{detect_double_spend, AttestationChain, ChainComparison};
use specter::net::consensus::{ConsensusError, ConsensusState, ValidatorKey};
use specter::net::node::NetworkNode;
use specter::net::protocol::NodeId;
use specter::net::session::{decrypt_with_key, encrypt_with_key, parse_peer_pk, NodeIdentity};

fn base_mul(s: &[u8; 32]) -> [u8; 32] {
    (Scalar::from_canonical_bytes(*s).unwrap() * curve25519_dalek::constants::RISTRETTO_BASEPOINT_POINT)
        .compress()
        .to_bytes()
}

// ── Attestation chains ──────────────────────────────────────────────────

fn token() -> [u8; 32] {
    [42u8; 32]
}

fn user_hash(id: u8) -> [u8; 32] {
    let mut h = [0u8; 32];
    h[0] = id;
    h
}

fn keypair() -> ([u8; 32], [u8; 32]) {
    let sk = random_scalar();
    let pk = base_mul(&sk);
    (sk, pk)
}

#[test]
fn test_signed_attestation_roundtrip() {
    let (sk, pk) = keypair();
    let mut chain = AttestationChain::new(token());
    chain.add_transfer(user_hash(1), &sk, pk, user_hash(2));
    assert_eq!(chain.witness_count(), 1);
    assert!(chain.verify_integrity());
    assert!(chain.attestations[0].verify_signature());
}

#[test]
fn test_multi_transfer_signed() {
    let (sk1, pk1) = keypair();
    let (sk2, pk2) = keypair();
    let (sk3, pk3) = keypair();
    let mut chain = AttestationChain::new(token());
    chain.add_transfer(user_hash(1), &sk1, pk1, user_hash(2));
    chain.add_transfer(user_hash(2), &sk2, pk2, user_hash(3));
    chain.add_transfer(user_hash(3), &sk3, pk3, user_hash(4));
    assert_eq!(chain.witness_count(), 3);
    assert!(chain.verify_integrity());
}

#[test]
fn test_double_spend_detected_signed() {
    let (sk1, pk1) = keypair();
    let mut chain_bob = AttestationChain::new(token());
    chain_bob.add_transfer(user_hash(1), &sk1, pk1, user_hash(2));
    let mut chain_carol = AttestationChain::new(token());
    chain_carol.add_transfer(user_hash(1), &sk1, pk1, user_hash(3));
    match detect_double_spend(&chain_bob, &chain_carol) {
        ChainComparison::Conflict { position, cheater_hash } => {
            assert_eq!(position, 0);
            assert_eq!(cheater_hash, user_hash(1));
        }
        other => panic!("expected Conflict, got {:?}", other),
    }
}

#[test]
fn test_tampered_signature_fails() {
    let (sk, pk) = keypair();
    let mut chain = AttestationChain::new(token());
    chain.add_transfer(user_hash(1), &sk, pk, user_hash(2));
    let s = Scalar::from_canonical_bytes(chain.attestations[0].signature.s).unwrap();
    chain.attestations[0].signature.s = (s + Scalar::ONE).to_bytes();
    assert!(!chain.verify_integrity());
}

#[test]
fn test_forged_attestation_fails() {
    let (sk, pk) = keypair();
    let (_sk2, pk2) = keypair();
    let mut chain = AttestationChain::new(token());
    chain.add_transfer(user_hash(1), &sk, pk, user_hash(2));
    chain.attestations[0].sender_pubkey = pk2;
    assert!(!chain.verify_integrity());
}

#[test]
fn test_long_chain_signed() {
    let mut chain = AttestationChain::new(token());
    for i in 0u8..20 {
        let (sk, pk) = keypair();
        chain.add_transfer(user_hash(i), &sk, pk, user_hash(i + 1));
    }
    assert_eq!(chain.witness_count(), 20);
    assert!(chain.verify_integrity());
}

#[test]
fn test_different_tokens() {
    let (sk, pk) = keypair();
    let mut a = AttestationChain::new([1u8; 32]);
    a.add_transfer(user_hash(1), &sk, pk, user_hash(2));
    let mut b = AttestationChain::new([2u8; 32]);
    b.add_transfer(user_hash(1), &sk, pk, user_hash(2));
    assert_eq!(detect_double_spend(&a, &b), ChainComparison::DifferentTokens);
}

#[test]
fn chain_prefix_is_consistent() {
    let (sk, pk) = keypair();
    let mut a = AttestationChain::new(token());
    a.add_transfer(user_hash(1), &sk, pk, user_hash(2));
    let mut b = AttestationChain::new(token());
    b.add_transfer(user_hash(1), &sk, pk, user_hash(2));
    // Same transfer, different signature nonces: the hashes agree.
    assert_eq!(detect_double_spend(&a, &b), ChainComparison::Consistent);
    assert_eq!(a.attestations[0].prev_hash, [0u8; 32]);
    a.add_transfer(user_hash(2), &sk, pk, user_hash(3));
    assert_eq!(a.attestations[1].prev_hash, a.attestations[0].hash);
    assert_eq!(a.attestations[1].chain_position, 1);
}

// ── Consensus ───────────────────────────────────────────────────────────

fn setup_validators() -> (Vec<ValidatorKey>, Vec<NodeId>, HashMap<NodeId, [u8; 32]>) {
    let keys: Vec<ValidatorKey> = (1..=4).map(ValidatorKey::generate).collect();
    let ids: Vec<NodeId> = keys.iter().map(|k| k.node_id).collect();
    let pubkeys: HashMap<NodeId, [u8; 32]> = keys.iter().map(|k| (k.node_id, k.public_key)).collect();
    (keys, ids, pubkeys)
}

#[test]
fn test_leader_rotation() {
    let (_, ids, pks) = setup_validators();
    let state = ConsensusState::new(1, ids, pks).unwrap();
    assert_eq!(state.current_leader(), 1);
}

#[test]
fn test_quorum_size() {
    let (_, ids, pks) = setup_validators();
    let state = ConsensusState::new(1, ids, pks).unwrap();
    assert_eq!(state.total_validators, 4);
    assert_eq!(state.quorum_size, 3);
}

#[test]
fn test_propose_as_leader() {
    let (_, ids, pks) = setup_validators();
    let mut state = ConsensusState::new(1, ids, pks).unwrap();
    state.submit_nullifier([42u8; 32]);
    let block = state.propose_block().unwrap();
    assert_eq!(block.height, 0);
    assert_eq!(block.nullifiers.len(), 1);
}

#[test]
fn test_propose_as_non_leader_fails() {
    let (_, ids, pks) = setup_validators();
    let mut state = ConsensusState::new(2, ids, pks).unwrap();
    assert!(state.propose_block().is_err());
}

#[test]
fn test_authenticated_vote_and_commit() {
    let (keys, ids, pks) = setup_validators();
    let mut node1 = ConsensusState::new(1, ids, pks).unwrap();
    node1.submit_nullifier([42u8; 32]);
    let block = node1.propose_block().unwrap();
    let v1 = keys[0].sign_vote(block.height, &block.hash, true);
    let v2 = keys[1].sign_vote(block.height, &block.hash, true);
    let v3 = keys[2].sign_vote(block.height, &block.hash, true);
    node1.receive_vote(v1).unwrap();
    node1.receive_vote(v2).unwrap();
    node1.receive_vote(v3).unwrap();
    assert!(node1.try_commit(&block).unwrap());
    assert!(node1.is_committed(&[42u8; 32]));
}

#[test]
fn test_forged_vote_rejected() {
    let (_, ids, pks) = setup_validators();
    let mut state = ConsensusState::new(1, ids, pks).unwrap();
    let fake_key = ValidatorKey::generate(99);
    let forged = fake_key.sign_vote(0, &[0u8; 32], true);
    assert!(state.receive_vote(forged).is_err());
}

#[test]
fn test_tampered_vote_rejected() {
    let (keys, ids, pks) = setup_validators();
    let mut state = ConsensusState::new(1, ids, pks).unwrap();
    let mut vote = keys[0].sign_vote(0, &[0u8; 32], true);
    vote.approve = false;
    assert!(state.receive_vote(vote).is_err());
}

#[test]
fn test_duplicate_vote_rejected() {
    let (keys, ids, pks) = setup_validators();
    let mut state = ConsensusState::new(1, ids, pks).unwrap();
    state.submit_nullifier([42u8; 32]);
    let block = state.propose_block().unwrap();
    let v1 = keys[0].sign_vote(block.height, &block.hash, true);
    let v1_dup = keys[0].sign_vote(block.height, &block.hash, true);
    state.receive_vote(v1).unwrap();
    assert!(state.receive_vote(v1_dup).is_err());
}

#[test]
fn test_insufficient_votes_no_commit() {
    let (keys, ids, pks) = setup_validators();
    let mut state = ConsensusState::new(1, ids, pks).unwrap();
    state.submit_nullifier([42u8; 32]);
    let block = state.propose_block().unwrap();
    let v1 = keys[0].sign_vote(block.height, &block.hash, true);
    state.receive_vote(v1).unwrap();
    assert!(!state.try_commit(&block).unwrap());
}

#[test]
fn test_view_change() {
    let (_, ids, pks) = setup_validators();
    let mut state = ConsensusState::new(1, ids, pks).unwrap();
    assert_eq!(state.current_leader(), 1);
    state.trigger_view_change();
    assert_eq!(state.current_view(), 1);
    assert_eq!(state.current_leader(), 2);
}

#[test]
fn consensus_needs_a_validator() {
    let r = ConsensusState::new(1, vec![], HashMap::new());
    assert!(matches!(r, Err(ConsensusError::InsufficientValidators { min: 1, got: 0 })));
}

// ── Network node ────────────────────────────────────────────────────────

fn make_network() -> (NetworkNode, NetworkNode, NetworkNode) {
    let k1 = ValidatorKey::generate(1);
    let k2 = ValidatorKey::generate(2);
    let k3 = ValidatorKey::generate(3);
    let validators = vec![1, 2, 3];
    let pubkeys: HashMap<NodeId, [u8; 32]> =
        vec![(1, k1.public_key), (2, k2.public_key), (3, k3.public_key)].into_iter().collect();
    let n1 = NetworkNode::new(1, vec![2, 3], k1, validators.clone(), pubkeys.clone());
    let n2 = NetworkNode::new(2, vec![1, 3], k2, validators.clone(), pubkeys.clone());
    let n3 = NetworkNode::new(3, vec![1, 2], k3, validators, pubkeys);
    (n1, n2, n3)
}

#[test]
fn test_node_creation() {
    let (node, _, _) = make_network();
    assert_eq!(node.id, 1);
    assert_eq!(node.stats().gossip_nullifiers, 0);
}

#[test]
fn test_submit_nullifier() {
    let (mut node, _, _) = make_network();
    node.submit_nullifier([42u8; 32]);
    assert!(node.is_nullifier_known(&[42u8; 32]));
}

#[test]
fn test_authenticated_consensus_flow() {
    let (mut n1, n2, n3) = make_network();
    n1.submit_nullifier([42u8; 32]);
    let block = n1.consensus.propose_block().unwrap();
    let v1 = n1.sign_vote(block.height, &block.hash, true);
    let v2 = n2.sign_vote(block.height, &block.hash, true);
    let v3 = n3.sign_vote(block.height, &block.hash, true);
    n1.consensus.receive_vote(v1).unwrap();
    n1.consensus.receive_vote(v2).unwrap();
    n1.consensus.receive_vote(v3).unwrap();
    assert!(n1.consensus.try_commit(&block).unwrap());
    assert!(n1.consensus.is_committed(&[42u8; 32]));
}

#[test]
fn node_stats_after_commit() {
    let (mut n1, n2, n3) = make_network();
    n1.submit_nullifier([7u8; 32]);
    let s = n1.stats();
    assert_eq!(s.id, 1);
    assert_eq!(s.gossip_nullifiers, 1);
    assert_eq!(s.committed_nullifiers, 0);
    assert!(s.is_leader);
    let block = n1.consensus.propose_block().unwrap();
    for v in [n1.sign_vote(0, &block.hash, true), n2.sign_vote(0, &block.hash, true), n3.sign_vote(0, &block.hash, true)] {
        n1.consensus.receive_vote(v).unwrap();
    }
    assert!(n1.consensus.try_commit(&block).unwrap());
    let s = n1.stats();
    assert_eq!(s.committed_nullifiers, 1);
    assert_eq!(s.committed_blocks, 1);
    assert_eq!(s.current_height, 1);
    assert!(!n2.is_nullifier_known(&[7u8; 32]));
}

// ── Node identity and session encryption ────────────────────────────────

#[test]
fn test_identity_decode_tampered_magic_fails() {
    let id = NodeIdentity::generate();
    let mut encoded = id.encode(b"strong-pass-min12");
    encoded[0] = b'X';
    assert!(NodeIdentity::decode(&encoded, b"strong-pass-min12").is_none());
}

#[test]
fn test_parse_peer_pk() {
    let id = NodeIdentity::generate();
    let hex_str = id.public_hex();
    let parsed = parse_peer_pk(&hex_str).unwrap();
    assert_eq!(parsed, id.public_key());
    assert!(parse_peer_pk("notahex").is_none());
    assert!(parse_peer_pk("deadbeef").is_none());
}

#[test]
fn parse_peer_pk_trims_and_accepts_upper_case() {
    let id = NodeIdentity::generate();
    let upper = format!("  {}\n", id.public_hex().to_uppercase());
    assert_eq!(parse_peer_pk(&upper), Some(id.public_key()));
    assert!(parse_peer_pk(&"ff".repeat(32)).is_none());
}

#[test]
fn identity_encoding_layout() {
    let id = NodeIdentity::generate();
    let encoded = id.encode(b"strong-pass-min12");
    assert_eq!(&encoded[0..4], b"SID1");
    assert_eq!(encoded.len(), 36 + 32 + 16);
    assert_eq!(&encoded[32..36], &48u32.to_le_bytes());
    assert!(NodeIdentity::decode(&encoded[..35], b"strong-pass-min12").is_none());
    assert_eq!(id.public_key(), base_mul(id.secret()));
}

#[test]
fn session_encryption_roundtrip() {
    let key = [7u8; 32];
    let ct = encrypt_with_key(b"token bytes", &key).unwrap();
    assert_eq!(ct.len(), 12 + 11 + 16);
    assert_ne!(&ct[12..23], b"token bytes");
    assert_eq!(decrypt_with_key(&ct, &key).unwrap(), b"token bytes".to_vec());
    assert!(decrypt_with_key(&ct, &[8u8; 32]).is_none());
    assert!(decrypt_with_key(&ct[..11], &key).is_none());
    let mut bad = ct.clone();
    bad[20] ^= 1;
    assert!(decrypt_with_key(&bad, &key).is_none());
}

// ── Handshake ───────────────────────────────────────────────────────────

use specter::net::handshake::{
    accept_hello, bytes_lt, check_hello, finish, kem_keypair, kem_receive, kem_respond, session_key, sign_transcript,
    transcript, verify_transcript_signature, HandshakeMode, HelloError,
};

#[test]
fn handshake_both_sides_agree_on_key() {
    let (a_sk, a_id) = keypair();
    let (b_sk, b_id) = keypair();
    let (a_eph_sk, a_eph) = keypair();
    let (b_eph_sk, b_eph) = keypair();
    let a_shared = accept_hello(&a_eph_sk, &b_id, &b_eph, Some(b_id)).unwrap();
    let b_shared = accept_hello(&b_eph_sk, &a_id, &a_eph, None).unwrap();
    assert_eq!(a_shared, b_shared);
    let m = HandshakeMode::Classical;
    let ta = transcript(m, &a_id, &a_eph, &b_id, &b_eph, &a_shared, &[]);
    let tb = transcript(m, &b_id, &b_eph, &a_id, &a_eph, &b_shared, &[]);
    assert_eq!(ta, tb, "the transcript does not depend on the role");
    let (ra, sa) = sign_transcript(m, &a_sk, &a_id, &ta);
    let (rb, sb) = sign_transcript(m, &b_sk, &b_id, &tb);
    assert!(verify_transcript_signature(m, &ra, &sa, &a_id, &ta));
    let ka = finish(m, &b_id, &rb, &sb, &a_shared, &[], &ta).unwrap();
    let kb = finish(m, &a_id, &ra, &sa, &b_shared, &[], &tb).unwrap();
    assert_eq!(ka, kb);
    assert_eq!(ka, session_key(m, &a_shared, &[], &ta));
    assert!(finish(m, &b_id, &ra, &sa, &a_shared, &[], &ta).is_none(), "a signature by the wrong key is refused");
    assert_ne!(session_key(HandshakeMode::Hybrid, &a_shared, &[], &ta), ka);
}

#[test]
fn hello_errors() {
    let (_, id) = keypair();
    let (_, eph) = keypair();
    let (_, other) = keypair();
    let bad = [0xffu8; 32];
    assert_eq!(check_hello(&bad, &eph, None), Err(HelloError::InvalidIdentity));
    assert_eq!(check_hello(&id, &bad, None), Err(HelloError::InvalidEphemeral));
    assert_eq!(check_hello(&id, &eph, Some(other)), Err(HelloError::IdentityMismatch));
    assert_eq!(check_hello(&id, &eph, Some(id)), Ok(()));
    let mut lo = [0u8; 32];
    let mut hi = [0u8; 32];
    lo[31] = 1;
    hi[0] = 1;
    assert!(bytes_lt(&lo, &hi));
    assert!(!bytes_lt(&hi, &lo));
    assert!(!bytes_lt(&lo, &lo));
}

#[test]
fn hybrid_kem_shares_a_secret() {
    let (dk, ek) = kem_keypair();
    let (ct, ss_responder) = kem_respond(&ek).unwrap();
    let ss_initiator = kem_receive(&dk, &ct).unwrap();
    assert_eq!(ss_initiator, ss_responder);
    assert!(kem_respond(&ek[..10]).is_none());
    assert!(kem_receive(&dk, &ct[..10]).is_none());
}

#[test]
fn parse_peer_pk_ignores_unicode_white_space_only_at_the_ends() {
    let id = NodeIdentity::generate();
    let hex_str: String = id.public_key().iter().map(|b| format!("{:02x}", b)).collect();
    let padded = format!("\t\u{a0} {}\n\u{3000}", hex_str);
    assert_eq!(parse_peer_pk(&padded), Some(id.public_key()));
    let inner = format!("{} {}", &hex_str[..32], &hex_str[32..]);
    assert!(parse_peer_pk(&inner).is_none());
}

#[test]
fn classical_session_key_is_sha256_of_label_shared_and_transcript() {
    let (_, a_id) = keypair();
    let (_, b_id) = keypair();
    let (a_eph_sk, a_eph) = keypair();
    let (_, b_eph) = keypair();
    let shared = accept_hello(&a_eph_sk, &b_id, &b_eph, None).unwrap();
    let m = HandshakeMode::Classical;
    let t = transcript(m, &a_id, &a_eph, &b_id, &b_eph, &shared, &[]);
    let mut h = sha2::Sha256::new();
    h.update(b"specter-sigma-key:");
    h.update(shared);
    h.update(&t);
    let expected: [u8; 32] = h.finalize().into();
    assert_eq!(session_key(m, &shared, &[], &t), expected);
}
