//! Proof-carrying tokens: the token, its nullifiers, its wire format,
//! its verification, and the economic and memory guards around it.

pub mod deterrence;
pub mod memory_guard;
pub mod nullifier;
pub mod token;
pub mod serde_token;
pub mod transfer;
pub mod verify;
pub mod secure_store;
pub mod wallet;
pub mod signer;
