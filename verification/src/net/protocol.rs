//! Messages exchanged between nodes.

use vstd::prelude::*;

verus! {

/// Unique node identifier.
pub type NodeId = u64;

/// Messages exchanged between nodes of the network.
#[derive(Clone, Debug)]
pub enum Message {
    /// Request to mint a new token (sent to threshold signers).
    MintRequest { requester: NodeId, blinded_message: Vec<u8> },
    /// Partial signature response from a threshold signer.
    MintResponse { signer_id: NodeId, partial_signature: Vec<u8> },
    /// A spent nullifier, with the sender's Schnorr signature on it.
    NullifierBroadcast { nullifier: [u8; 32], sender: NodeId, signature_r: [u8; 32], signature_s: [u8; 32] },
    /// Request the nullifier set (or its changes since a known block).
    SyncRequest { from_node: NodeId, last_known_block: u64 },
    /// Response with nullifier set updates.
    SyncResponse { nullifiers: Vec<[u8; 32]>, block_height: u64 },
    /// Consensus proposal for a new block of nullifiers.
    ConsensusProposal { leader: NodeId, block_height: u64, nullifiers: Vec<[u8; 32]>, proposal_hash: [u8; 32] },
    /// Vote on a consensus proposal.
    ConsensusVote { voter: NodeId, block_height: u64, proposal_hash: [u8; 32], approve: bool },
    /// Heartbeat.
    Ping { from: NodeId },
    Pong { from: NodeId },
}

/// The name of a message's kind.
pub open spec fn spec_kind_name(m: Message) -> Seq<char> {
    match m {
        Message::MintRequest { .. } => "MintRequest"@,
        Message::MintResponse { .. } => "MintResponse"@,
        Message::NullifierBroadcast { .. } => "NullifierBroadcast"@,
        Message::SyncRequest { .. } => "SyncRequest"@,
        Message::SyncResponse { .. } => "SyncResponse"@,
        Message::ConsensusProposal { .. } => "ConsensusProposal"@,
        Message::ConsensusVote { .. } => "ConsensusVote"@,
        Message::Ping { .. } => "Ping"@,
        Message::Pong { .. } => "Pong"@,
    }
}

impl Message {
    /// The message kind's name (for logging).
    pub fn kind_name(&self) -> (r: &'static str)
        ensures
            r@ == spec_kind_name(*self),
    {
        match self {
            Message::MintRequest { .. } => "MintRequest",
            Message::MintResponse { .. } => "MintResponse",
            Message::NullifierBroadcast { .. } => "NullifierBroadcast",
            Message::SyncRequest { .. } => "SyncRequest",
            Message::SyncResponse { .. } => "SyncResponse",
            Message::ConsensusProposal { .. } => "ConsensusProposal",
            Message::ConsensusVote { .. } => "ConsensusVote",
            Message::Ping { .. } => "Ping",
            Message::Pong { .. } => "Pong",
        }
    }
}

} // verus!
