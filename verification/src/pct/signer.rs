//! Wallet signers: anything that can produce a Schnorr signature over
//! Ristretto255 under a long-term key, with an in-memory default and
//! placeholders for hardware back ends.

use vstd::prelude::*;
use vstd::string::*;
use crate::bytes::le_nat;
use crate::hashing::spec_sha512;
use crate::scalar::{enc, is_scalar, sc, group_order};
use crate::group::{ristretto_valid, schnorr_holds, spec_basepoint_mul};
use crate::blind::types::SignerKeypair;

verus! {

broadcast use crate::scalar::lemma_enc;

/// A Schnorr signature `(R, s)`.
#[derive(Clone, Copy, Debug, PartialEq, Eq)]
pub struct SchnorrSig {
    pub r: [u8; 32],
    pub s: [u8; 32],
}

/// Errors of signer back ends.
#[derive(Debug, Clone)]
pub enum SignerError {
    /// The back end is unavailable.
    Unavailable(String),
    /// The back end refused the operation.
    Refused(String),
    /// The back end is not implemented.
    Unimplemented(&'static str),
}

/// The signing challenge `H("specter-wallet-sig:" ‖ R ‖ pk ‖ len(msg) ‖ msg)`
/// reduced modulo ℓ.
pub open spec fn wallet_challenge(r: Seq<u8>, pk: Seq<u8>, msg: Seq<u8>) -> Seq<u8> {
    enc(le_nat(spec_sha512("specter-wallet-sig:".spec_bytes() + r + pk
        + vstd::bytes::spec_u64_to_le_bytes(msg.len() as u64) + msg)) as int)
}

/// Whether `sig` is a valid signature of `msg` under `pk`.
pub open spec fn wallet_signature_valid(pk: Seq<u8>, msg: Seq<u8>, sig: SchnorrSig) -> bool {
    &&& ristretto_valid(pk)
    &&& ristretto_valid(sig.r@)
    &&& is_scalar(sig.s)
    &&& schnorr_holds(sig.r@, sig.s@, wallet_challenge(sig.r@, pk, msg), pk)
}

fn challenge(r: &[u8; 32], pk: &[u8; 32], msg: &[u8]) -> (e: [u8; 32])
    requires
        msg@.len() <= u64::MAX,
    ensures
        is_scalar(e),
        e@ == wallet_challenge(r@, pk@, msg@),
{
    let mut buf: Vec<u8> = Vec::new();
    crate::bytes::append_bytes(&mut buf, "specter-wallet-sig:".as_bytes());
    crate::bytes::append_bytes(&mut buf, r);
    crate::bytes::append_bytes(&mut buf, pk);
    let len = vstd::bytes::u64_to_le_bytes(msg.len() as u64);
    crate::bytes::append_bytes(&mut buf, len.as_slice());
    crate::bytes::append_bytes(&mut buf, msg);
    let h = crate::hashing::sha512(buf.as_slice());
    crate::group::scalar_from_digest(&h)
}

/// Checks a Schnorr signature: `s·B == R + e·pk` for the challenge `e`.
pub fn verify_schnorr(pk: &[u8; 32], msg: &[u8], sig: &SchnorrSig) -> (ok: bool)
    requires
        msg@.len() <= u64::MAX,
    ensures
        ok == wallet_signature_valid(pk@, msg@, *sig),
{
    if !crate::group::point_is_valid(pk) {
        return false;
    }
    if !crate::group::point_is_valid(&sig.r) {
        return false;
    }
    let s = match crate::group::scalar_from_canonical(sig.s) {
        Some(s) => s,
        None => return false,
    };
    let e = challenge(&sig.r, pk, msg);
    crate::group::schnorr_check(sig.r, s, e, *pk)
}

/// A signer: signs messages under a long-term key and tells its public key.
pub trait WalletSigner {
    /// The signer's public key.
    spec fn public_key_spec(&self) -> [u8; 32];

    /// Signs `msg` under the signer's key; a signature it gives verifies
    /// under its public key.
    fn sign(&self, msg: &[u8]) -> (r: Result<SchnorrSig, SignerError>)
        requires
            msg@.len() <= u64::MAX,
        ensures
            r is Ok ==> wallet_signature_valid(self.public_key_spec()@, msg@, r->Ok_0);

    /// The signer's public key.
    fn public(&self) -> (pk: [u8; 32])
        ensures
            pk == self.public_key_spec();

    /// Checks a signature under the signer's public key.
    fn verify(&self, msg: &[u8], sig: &SchnorrSig) -> (ok: bool)
        requires
            msg@.len() <= u64::MAX,
        ensures
            ok == wallet_signature_valid(self.public_key_spec()@, msg@, *sig),
    {
        let pk = self.public();
        verify_schnorr(&pk, msg, sig)
    }
}

/// An in-memory signer; its key pair wipes the secret when dropped.
pub struct SoftwareSigner {
    keys: SignerKeypair,
}

impl SoftwareSigner {
    /// The secret scalar.
    pub closed spec fn sk(&self) -> [u8; 32] {
        self.keys.sk()
    }

    /// The public key.
    pub closed spec fn pk(&self) -> [u8; 32] {
        self.keys.pk()
    }

    #[verifier::type_invariant]
    spec fn inv(&self) -> bool {
        self.keys.wf()
    }

    /// The secret is a scalar and the public key its multiple of the base.
    pub open spec fn wf(&self) -> bool {
        &&& is_scalar(self.sk())
        &&& self.pk()@ == spec_basepoint_mul(self.sk()@)
        &&& ristretto_valid(self.pk()@)
    }

    /// A signer with a fresh random key.
    pub fn generate() -> (s: Self)
        ensures
            s.wf(),
    {
        SoftwareSigner { keys: SignerKeypair::generate() }
    }

    /// A signer for the given secret scalar.
    pub fn from_secret(secret: [u8; 32]) -> (s: Self)
        requires
            is_scalar(secret),
        ensures
            s.wf(),
            s.sk() == secret,
    {
        SoftwareSigner { keys: SignerKeypair::from_secret(secret) }
    }

    /// Signs `msg`: a fresh nonce `k`, `R = k·B`, `s = k + e·x`.
    pub fn sign_message(&self, msg: &[u8]) -> (sig: SchnorrSig)
        requires
            msg@.len() <= u64::MAX,
        ensures
            ristretto_valid(sig.r@),
            is_scalar(sig.s),
            exists|k: [u8; 32]| is_scalar(k) && sig.r@ == #[trigger] spec_basepoint_mul(k@)
                && sig.s@ == enc(sc(k) + ((le_nat(wallet_challenge(sig.r@, self.pk()@, msg@)) * sc(self.sk())) % group_order()) as int),
            wallet_signature_valid(self.pk()@, msg@, sig),
    {
        proof { use_type_invariant(self); }
        let pk = self.keys.public_key();
        let k = crate::group::random_scalar();
        let r = crate::group::basepoint_mul(k);
        let e = challenge(&r, &pk, msg);
        let s = crate::group::schnorr_response(k, e, *self.keys.secret());
        let sig = SchnorrSig { r, s };
        assert(is_scalar(k) && sig.r@ == spec_basepoint_mul(k@));
        proof {
            crate::group::lemma_schnorr_response_holds(r@, s@, e@, pk@, sc(k) as int, sc(self.sk()) as int);
        }
        sig
    }
}

impl WalletSigner for SoftwareSigner {
    open spec fn public_key_spec(&self) -> [u8; 32] {
        self.pk()
    }

    /// Always signs.
    fn sign(&self, msg: &[u8]) -> (r: Result<SchnorrSig, SignerError>)
        ensures
            r is Ok,
    {
        Ok(self.sign_message(msg))
    }

    fn public(&self) -> (pk: [u8; 32]) {
        self.keys.public_key()
    }
}

/// A signer whose key would live in a YubiHSM; signing is not available.
pub struct YubiHsmSigner {
    pub public: [u8; 32],
}

impl WalletSigner for YubiHsmSigner {
    open spec fn public_key_spec(&self) -> [u8; 32] {
        self.public
    }

    /// Never signs: the message says what is missing.
    fn sign(&self, msg: &[u8]) -> (r: Result<SchnorrSig, SignerError>)
        ensures
            r == Err::<SchnorrSig, SignerError>(SignerError::Unimplemented(
                "YubiHSM Ristretto signing requires custom firmware or SGX enclave; use SoftwareSigner or write a domain-specific integration")),
    {
        Err(SignerError::Unimplemented(
            "YubiHSM Ristretto signing requires custom firmware or SGX enclave; use SoftwareSigner or write a domain-specific integration"))
    }

    fn public(&self) -> (pk: [u8; 32]) {
        self.public
    }
}

/// A signer whose key would live in an SGX enclave; signing is not available.
pub struct SgxEnclaveSigner {
    pub public: [u8; 32],
}

impl WalletSigner for SgxEnclaveSigner {
    open spec fn public_key_spec(&self) -> [u8; 32] {
        self.public
    }

    /// Never signs: the message says what is missing.
    fn sign(&self, msg: &[u8]) -> (r: Result<SchnorrSig, SignerError>)
        ensures
            r == Err::<SchnorrSig, SignerError>(SignerError::Unimplemented(
                "SGX enclave signer not yet wired; requires Fortanix EDP build target")),
    {
        Err(SignerError::Unimplemented("SGX enclave signer not yet wired; requires Fortanix EDP build target"))
    }

    fn public(&self) -> (pk: [u8; 32]) {
        self.public
    }
}

} // verus!
