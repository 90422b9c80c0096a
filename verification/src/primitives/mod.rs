//! Building blocks: commitments, secret sharing.

pub mod sis;
pub mod pedersen;
pub mod shamir;
pub mod range_proof;
pub mod hardened;
