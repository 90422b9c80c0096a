//! Signing keys and blind signatures.

use vstd::prelude::*;
use crate::scalar::{is_scalar, sc};
use crate::group::{ristretto_valid, spec_basepoint_mul, encodes};

verus! {

/// A blind Schnorr signature `(s, e)`.
#[derive(Clone, Copy, Debug, PartialEq, Eq)]
pub struct BlindSignature {
    /// Response scalar.
    pub s: [u8; 32],
    /// Challenge scalar.
    pub e: [u8; 32],
}


/// A signer's key pair: a secret scalar and its public key `secret·B`.
pub struct SignerKeypair {
    secret: [u8; 32],
    /// The public verification key.
    pub public: [u8; 32],
}

impl SignerKeypair {
    /// The secret scalar.
    pub closed spec fn sk(&self) -> [u8; 32] {
        self.secret
    }

    /// The public key.
    pub closed spec fn pk(&self) -> [u8; 32] {
        self.public
    }

    /// The secret is a scalar and the public key is its multiple of the base.
    pub open spec fn wf(&self) -> bool {
        &&& is_scalar(self.sk())
        &&& self.pk()@ == spec_basepoint_mul(self.sk()@)
        &&& ristretto_valid(self.pk()@)
        &&& encodes(self.pk()@, sc(self.sk()) as int)
    }

    /// A fresh random key pair.
    pub fn generate() -> (k: Self)
        ensures
            k.wf(),
    {
        let secret = crate::group::random_scalar();
        let public = crate::group::basepoint_mul(secret);
        SignerKeypair { secret, public }
    }

    /// A key pair from a secret scalar.
    pub fn from_secret(secret: [u8; 32]) -> (k: Self)
        requires
            is_scalar(secret),
        ensures
            k.wf(),
            k.sk() == secret,
    {
        let public = crate::group::basepoint_mul(secret);
        SignerKeypair { secret, public }
    }

    /// The public key.
    pub fn public_key(&self) -> (p: [u8; 32])
        ensures
            p == self.pk(),
    {
        self.public
    }

    /// The secret scalar.
    pub fn secret(&self) -> (s: &[u8; 32])
        ensures
            *s == self.sk(),
    {
        &self.secret
    }
}

impl Drop for SignerKeypair {
    fn drop(&mut self)
        opens_invariants none
        no_unwind
    {
        crate::rng::wipe_array32(&mut self.secret);
    }
}

} // verus!
