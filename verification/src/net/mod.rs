//! The peer-to-peer network: message types, nullifier gossip, consensus
//! on committed nullifiers, and offline attestation chains.

pub mod protocol;
pub mod gossip;
pub mod consensus;
pub mod attestation;
pub mod handshake;
pub mod node;
pub mod session;
