//! Transfer-history proofs and Fiat-Shamir transcripts.

pub mod accumulator;
pub mod transcript;
pub mod circuit;
