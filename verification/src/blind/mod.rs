//! Blind Schnorr signatures: the mint signs tokens without seeing them.

pub mod types;
pub mod schnorr_blind;
pub mod dkg;
pub mod clause_blind;
