//! One proof type for both delay functions: the hash chain and the RSA
//! group with a Wesolowski proof.

use vstd::prelude::*;
use crate::offline::vdf::{VdfProof, hash_chain};
use crate::offline::vdf_rsa::{RsaVdfParams, RsaVdfProof, be_nat, rsa_proof_valid};

verus! {

/// A delay proof of either kind.
#[derive(Clone, Debug)]
pub enum UnifiedVdfProof {
    /// The hash chain.
    HashChain(VdfProof),
    /// Repeated squaring modulo an RSA number, with a Wesolowski proof.
    Rsa(RsaVdfProof),
}

/// Why an RSA evaluation was refused.
#[derive(Clone, Copy, Debug, PartialEq, Eq)]
pub enum VdfRsaError {
    /// The modulus is zero.
    ZeroModulus,
}

/// Whether a proof of either kind verifies, the RSA kind modulo `n`.
pub open spec fn unified_valid(vp: UnifiedVdfProof, n: nat) -> bool {
    match vp {
        UnifiedVdfProof::HashChain(p) => p.output@ == hash_chain(p.seed@, p.iterations as nat),
        UnifiedVdfProof::Rsa(p) => rsa_proof_valid(n, p),
    }
}

/// The iteration count a proof of either kind claims.
pub open spec fn unified_iterations(vp: UnifiedVdfProof) -> u64 {
    match vp {
        UnifiedVdfProof::HashChain(p) => p.iterations,
        UnifiedVdfProof::Rsa(p) => p.iterations,
    }
}

/// Evaluates the RSA delay function and wraps the proof; refuses a zero
/// modulus.
pub fn evaluate_unified(params: &RsaVdfParams, input: &[u8], iterations: u64) -> (r: Result<UnifiedVdfProof, VdfRsaError>)
    ensures
        r is Err <==> be_nat(params.modulus@) == 0,
        r is Err ==> r->Err_0 == VdfRsaError::ZeroModulus,
        r is Ok ==> (r->Ok_0 matches UnifiedVdfProof::Rsa(p)
            && p.iterations == iterations
            && p.input@ == crate::offline::vdf_rsa::be_bytes(be_nat(input@))
            && p.output@ == crate::offline::vdf_rsa::be_bytes(crate::offline::vdf_rsa::sq_iter(
                be_nat(input@), iterations as nat, be_nat(params.modulus@)))
            && (iterations > 0 || be_nat(input@) < be_nat(params.modulus@) ==> rsa_proof_valid(be_nat(params.modulus@), p))),
{
    if crate::offline::vdf_rsa::is_zero(params.modulus.as_slice()) {
        return Err(VdfRsaError::ZeroModulus);
    }
    let proof = crate::offline::vdf_rsa::evaluate(params, input, iterations);
    Ok(UnifiedVdfProof::Rsa(proof))
}

/// Whether a proof of either kind verifies (the RSA kind under `rsa_params`).
pub fn verify_unified(vp: &UnifiedVdfProof, rsa_params: &RsaVdfParams) -> (ok: bool)
    requires
        vp is Rsa ==> be_nat(rsa_params.modulus@) > 0,
    ensures
        ok == unified_valid(*vp, be_nat(rsa_params.modulus@)),
{
    match vp {
        UnifiedVdfProof::HashChain(p) => crate::offline::vdf::verify(p),
        UnifiedVdfProof::Rsa(p) => crate::offline::vdf_rsa::verify(rsa_params, p),
    }
}

/// Whether a proof of either kind has fewer iterations than required.
pub fn is_expired_unified(vp: &UnifiedVdfProof, required_iterations: u64) -> (r: bool)
    ensures
        r == (unified_iterations(*vp) < required_iterations),
{
    match vp {
        UnifiedVdfProof::HashChain(p) => p.iterations < required_iterations,
        UnifiedVdfProof::Rsa(p) => p.iterations < required_iterations,
    }
}

} // verus!
