//! A network node: gossip, consensus and the node's validator key together.

use vstd::prelude::*;
use std::collections::HashMap;
use crate::net::protocol::NodeId;
use crate::net::gossip::{GossipProtocol, MAX_KNOWN_NULLIFIERS, broadcast_msg};
use crate::net::consensus::{ConsensusState, ConsensusView, ValidatorKey, Vote, MAX_PENDING_NULLIFIERS, spec_quorum};

verus! {

/// A node of the network.
pub struct NetworkNode {
    pub id: NodeId,
    pub gossip: GossipProtocol,
    pub consensus: ConsensusState,
    pub validator_key: ValidatorKey,
}

/// A summary of a node's state.
#[derive(Debug, Clone, Copy, PartialEq, Eq)]
pub struct NodeStats {
    pub id: NodeId,
    pub gossip_nullifiers: usize,
    pub committed_nullifiers: usize,
    pub committed_blocks: usize,
    pub current_height: u64,
    pub is_leader: bool,
}

impl NetworkNode {
    /// The node's invariant: its parts are well formed.
    pub open spec fn wf(&self) -> bool {
        &&& self.gossip.wf()
        &&& self.consensus.wf()
        &&& self.validator_key.wf()
    }

    /// A node with the given peers, its own validator key, and the set of
    /// all validators with their public keys (at least one validator).
    pub fn new(
        id: NodeId,
        peers: Vec<NodeId>,
        own_key: ValidatorKey,
        all_validators: Vec<NodeId>,
        all_pubkeys: HashMap<NodeId, [u8; 32]>,
    ) -> (n: Self)
        requires
            own_key.wf(),
            all_validators@.len() > 0,
        ensures
            n.wf(),
            n.id == id,
            n.gossip@.node_id == id,
            n.gossip@.seen == Set::<[u8; 32]>::empty(),
            n.gossip@.peers == peers@,
            n.consensus@.node_id == id,
            n.consensus@.validators == all_validators@,
            n.consensus@.keys == all_pubkeys@,
            n.consensus@.height == 0,
            n.consensus@.view == 0,
            n.consensus@.committed == Set::<[u8; 32]>::empty(),
            n.consensus@.pending.len() == 0,
            n.consensus@.committed_blocks.len() == 0,
            n.consensus@.quorum_size == spec_quorum(all_validators@.len() as nat),
            n.validator_key == own_key,
    {
        let gossip = GossipProtocol::new(id, peers);
        let consensus = match ConsensusState::new(id, all_validators, all_pubkeys) {
            Ok(c) => c,
            Err(_) => vstd::pervasive::unreached(),
        };
        NetworkNode { id, gossip, consensus, validator_key: own_key }
    }

    /// Submits a nullifier: gossips it to the peers and queues it for the
    /// next block.
    pub fn submit_nullifier(&mut self, nullifier: [u8; 32])
        requires
            old(self).wf(),
        ensures
            final(self).wf(),
            final(self).id == old(self).id,
            final(self).validator_key == old(self).validator_key,
            final(self).gossip@ == old(self).gossip@.accept(nullifier, None,
                broadcast_msg(nullifier, old(self).gossip@.node_id, [0u8; 32usize], [0u8; 32usize])).1,
            (old(self).consensus@.pending.len() >= MAX_PENDING_NULLIFIERS || old(self).consensus@.committed.contains(nullifier)
                || old(self).consensus@.pending.contains(nullifier)) ==> final(self).consensus@ == old(self).consensus@,
            !(old(self).consensus@.pending.len() >= MAX_PENDING_NULLIFIERS || old(self).consensus@.committed.contains(nullifier)
                || old(self).consensus@.pending.contains(nullifier)) ==> final(self).consensus@
                    == (ConsensusView { pending: old(self).consensus@.pending.push(nullifier), ..old(self).consensus@ }),
            old(self).gossip@.seen.len() < MAX_KNOWN_NULLIFIERS ==> final(self).gossip@.seen.contains(nullifier),
    {
        self.gossip.broadcast_nullifier(nullifier);
        self.consensus.submit_nullifier(nullifier);
    }

    /// Whether a nullifier is known, by gossip or committed in a block.
    pub fn is_nullifier_known(&self, nullifier: &[u8; 32]) -> (b: bool)
        requires
            self.wf(),
        ensures
            b == (self.gossip@.seen.contains(*nullifier) || self.consensus@.committed.contains(*nullifier)),
    {
        self.gossip.has_nullifier(nullifier) || self.consensus.is_committed(nullifier)
    }

    /// Signs a vote on a block with this node's validator key.
    pub fn sign_vote(&self, block_height: u64, block_hash: &[u8; 32], approve: bool) -> (v: Vote)
        requires
            self.wf(),
        ensures
            v.voter == self.validator_key.id(),
            v.block_height == block_height,
            v.block_hash == *block_hash,
            v.approve == approve,
    {
        self.validator_key.sign_vote(block_height, block_hash, approve)
    }

    /// The node's statistics.
    pub fn stats(&self) -> (s: NodeStats)
        requires
            self.wf(),
        ensures
            s.id == self.id,
            s.gossip_nullifiers == self.gossip@.seen.len(),
            s.committed_nullifiers == self.consensus@.committed.len(),
            s.committed_blocks == self.consensus@.committed_blocks.len(),
            s.current_height == self.consensus@.height,
            s.is_leader == (self.consensus@.leader() == self.id),
    {
        NodeStats {
            id: self.id,
            gossip_nullifiers: self.gossip.known_nullifiers(),
            committed_nullifiers: self.consensus.nullifier_count(),
            committed_blocks: self.consensus.block_count(),
            current_height: self.consensus.height(),
            is_leader: self.consensus.current_leader() == self.id,
        }
    }
}

} // verus!
