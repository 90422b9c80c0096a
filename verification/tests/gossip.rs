use specter::net::gossip::GossipProtocol;
use specter::net::protocol::Message;

#[test]
fn test_broadcast_new_nullifier() {
    let mut gossip = GossipProtocol::new(1, vec![2, 3, 4]);
    let nullifier = [42u8; 32];

    assert!(gossip.broadcast_nullifier(nullifier));
    assert_eq!(gossip.known_nullifiers(), 1);

    assert_eq!(gossip.drain_messages_for(2).len(), 1);
    assert_eq!(gossip.drain_messages_for(3).len(), 1);
    assert_eq!(gossip.drain_messages_for(4).len(), 1);
}

#[test]
fn test_duplicate_broadcast_ignored() {
    let mut gossip = GossipProtocol::new(1, vec![2, 3]);
    let nullifier = [42u8; 32];

    assert!(gossip.broadcast_nullifier(nullifier));
    assert!(!gossip.broadcast_nullifier(nullifier));
    assert_eq!(gossip.known_nullifiers(), 1);
}

#[test]
fn test_handle_received_rebroadcasts() {
    let mut gossip = GossipProtocol::new(1, vec![2, 3, 4]);
    let nullifier = [42u8; 32];

    assert!(gossip.handle_nullifier_broadcast(nullifier, 2));
    assert_eq!(gossip.known_nullifiers(), 1);

    assert_eq!(gossip.drain_messages_for(2).len(), 0);
    assert_eq!(gossip.drain_messages_for(3).len(), 1);
    assert_eq!(gossip.drain_messages_for(4).len(), 1);
}

#[test]
fn test_gossip_network_simulation() {
    let mut node1 = GossipProtocol::new(1, vec![2, 3]);
    let mut node2 = GossipProtocol::new(2, vec![1, 3, 4]);
    let mut node3 = GossipProtocol::new(3, vec![1, 2, 4]);
    let mut node4 = GossipProtocol::new(4, vec![2, 3]);

    let nullifier = [99u8; 32];
    node1.broadcast_nullifier(nullifier);

    for msg in node1.drain_messages_for(2) {
        if let Message::NullifierBroadcast { nullifier, sender, .. } = msg {
            node2.handle_nullifier_broadcast(nullifier, sender);
        }
    }
    for msg in node1.drain_messages_for(3) {
        if let Message::NullifierBroadcast { nullifier, sender, .. } = msg {
            node3.handle_nullifier_broadcast(nullifier, sender);
        }
    }

    for msg in node2.drain_messages_for(4) {
        if let Message::NullifierBroadcast { nullifier, sender, .. } = msg {
            node4.handle_nullifier_broadcast(nullifier, sender);
        }
    }

    assert!(node1.has_nullifier(&nullifier));
    assert!(node2.has_nullifier(&nullifier));
    assert!(node3.has_nullifier(&nullifier));
    assert!(node4.has_nullifier(&nullifier));
}

use std::collections::HashMap;
use curve25519_dalek::Scalar;
use specter::group::random_scalar;
use specter::net::gossip::{sign_nullifier_broadcast, verify_nullifier_broadcast, GossipError};
use specter::net::protocol::NodeId;

fn base_mul(s: &[u8; 32]) -> [u8; 32] {
    (Scalar::from_canonical_bytes(*s).unwrap() * curve25519_dalek::constants::RISTRETTO_BASEPOINT_POINT)
        .compress()
        .to_bytes()
}

#[test]
fn test_signed_broadcast_and_verified_receive() {
    let sk = random_scalar();
    let pk = base_mul(&sk);
    let nullifier = [42u8; 32];
    let sender: NodeId = 1;
    let (sig_r, sig_s) = sign_nullifier_broadcast(&nullifier, sender, &sk, &pk);
    assert!(verify_nullifier_broadcast(&nullifier, sender, &sig_r, &sig_s, &pk));
    let mut bad_null = nullifier;
    bad_null[0] ^= 0xFF;
    assert!(!verify_nullifier_broadcast(&bad_null, sender, &sig_r, &sig_s, &pk));
    assert!(!verify_nullifier_broadcast(&nullifier, 99, &sig_r, &sig_s, &pk));
    let other_pk = base_mul(&random_scalar());
    assert!(!verify_nullifier_broadcast(&nullifier, sender, &sig_r, &sig_s, &other_pk));
}

#[test]
fn test_verified_broadcast_rejects_forged() {
    let sk = random_scalar();
    let pk = base_mul(&sk);
    let mut keys = HashMap::new();
    keys.insert(1u64, pk);
    let mut gossip = GossipProtocol::new(2, vec![1, 3]);
    let nullifier = [42u8; 32];
    let forged_r = [0xFFu8; 32];
    let forged_s = [0x01u8; 32];
    let result = gossip.handle_verified_broadcast(nullifier, 1, &forged_r, &forged_s, &keys);
    assert!(result.is_err());
    assert!(!gossip.has_nullifier(&nullifier));
}

#[test]
fn test_verified_broadcast_accepts_valid() {
    let sk = random_scalar();
    let pk = base_mul(&sk);
    let mut keys = HashMap::new();
    keys.insert(1u64, pk);
    let mut gossip = GossipProtocol::new(2, vec![1, 3]);
    let nullifier = [42u8; 32];
    let (sig_r, sig_s) = sign_nullifier_broadcast(&nullifier, 1, &sk, &pk);
    let result = gossip.handle_verified_broadcast(nullifier, 1, &sig_r, &sig_s, &keys);
    assert!(result.unwrap());
    assert!(gossip.has_nullifier(&nullifier));
    // Relayed to the other peer, not back to the sender.
    assert_eq!(gossip.drain_messages_for(3).len(), 1);
    assert_eq!(gossip.drain_messages_for(1).len(), 0);
}

#[test]
fn test_verified_broadcast_rejects_unknown_sender() {
    let keys: HashMap<NodeId, [u8; 32]> = HashMap::new();
    let mut gossip = GossipProtocol::new(2, vec![1]);
    let result = gossip.handle_verified_broadcast([42u8; 32], 99, &[0; 32], &[0; 32], &keys);
    assert!(matches!(result, Err(GossipError::UnknownSender(99))));
}
