//! Specter: a proof-carrying bearer-token protocol, with its data formats,
//! registries and state machines verified.

pub mod bytes;
pub mod ct;
pub mod group;
pub mod scalar;
pub mod hashing;
pub mod rng;
pub mod table;
pub mod offline;
pub mod net;
pub mod pct;
pub mod credential;
pub mod blind;
pub mod primitives;
pub mod fold;
