//! Offline payments: reputation bonds and verifiable delays.

pub mod bonds;
pub mod vdf;
pub mod vdf_rsa;
pub mod vdf_unified;
