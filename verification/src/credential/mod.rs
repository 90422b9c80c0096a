//! Anonymous compliance credentials.

pub mod credential;
pub mod presentation;
pub mod revocation;
pub mod issuer;
