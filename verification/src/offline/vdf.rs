//! Verifiable delay by iterated hashing: a proof that a chain of
//! sequential SHA-256 evaluations was computed from a seed.

use vstd::prelude::*;
use vstd::string::*;
use crate::hashing::spec_sha256;

verus! {

/// A delay proof: the seed, the number of iterations, and the output.
#[derive(Clone, Copy, Debug)]
pub struct VdfProof {
    /// The seed (input).
    pub seed: [u8; 32],
    /// Number of iterations computed.
    pub iterations: u64,
    /// The final output after all iterations.
    pub output: [u8; 32],
}

/// Parameters of the delay: the number of iterations required.
pub struct VdfParams {
    pub iterations: u64,
}

impl VdfParams {
    /// Create parameters with the given iteration count.
    pub fn new(iterations: u64) -> (p: Self)
        ensures
            p.iterations == iterations,
    {
        VdfParams { iterations }
    }
}

/// `n` iterations of SHA-256 starting from `seed`.
pub open spec fn hash_chain(seed: Seq<u8>, n: nat) -> Seq<u8>
    decreases n,
{
    if n == 0 {
        seed
    } else {
        spec_sha256(hash_chain(seed, (n - 1) as nat))
    }
}

/// Evaluate the delay: `iterations` sequential SHA-256 evaluations.
pub fn evaluate(seed: &[u8; 32], iterations: u64) -> (p: VdfProof)
    ensures
        p.seed == *seed,
        p.iterations == iterations,
        p.output@ == hash_chain(seed@, iterations as nat),
{
    let mut current = *seed;
    let mut i: u64 = 0;
    while i < iterations
        invariant
            0 <= i <= iterations,
            current@ == hash_chain(seed@, i as nat),
        decreases iterations - i,
    {
        current = crate::hashing::sha256(&current);
        i = i + 1;
    }
    VdfProof { seed: *seed, iterations, output: current }
}

/// Verify a proof by recomputing the chain.
pub fn verify(proof: &VdfProof) -> (r: bool)
    ensures
        r == (proof.output@ == hash_chain(proof.seed@, proof.iterations as nat)),
{
    let recomputed = evaluate(&proof.seed, proof.iterations);
    crate::bytes::bytes32_eq(&recomputed.output, &proof.output)
}

/// Whether a proof was computed with fewer iterations than required.
pub fn is_expired(proof: &VdfProof, required_iterations: u64) -> (r: bool)
    ensures
        r == (proof.iterations < required_iterations),
{
    proof.iterations < required_iterations
}

/// The bytes hashed into a time-lock seed.
pub open spec fn seed_input(token_id: [u8; 32], timestamp_secs: u64) -> Seq<u8> {
    "specter-vdf-seed:".spec_bytes() + token_id@ + vstd::bytes::spec_u64_to_le_bytes(timestamp_secs)
}

/// Create a time-lock seed from a token id and a timestamp.
pub fn create_seed(token_id: &[u8; 32], timestamp_secs: u64) -> (s: [u8; 32])
    ensures
        s@ == spec_sha256(seed_input(*token_id, timestamp_secs)),
{
    let mut buf: Vec<u8> = Vec::new();
    crate::bytes::append_bytes(&mut buf, "specter-vdf-seed:".as_bytes());
    crate::bytes::append_bytes(&mut buf, token_id);
    let ts = vstd::bytes::u64_to_le_bytes(timestamp_secs);
    crate::bytes::append_bytes(&mut buf, ts.as_slice());
    crate::hashing::sha256(buf.as_slice())
}

/// A freshly evaluated proof verifies.
pub proof fn law_evaluate_then_verify(seed: [u8; 32], n: u64, p: VdfProof)
    requires
        p.seed == seed,
        p.iterations == n,
        p.output@ == hash_chain(seed@, n as nat),
    ensures
        p.output@ == hash_chain(p.seed@, p.iterations as nat),
{
}

/// Zero iterations leave the seed unchanged.
pub proof fn law_zero_iterations_identity(seed: Seq<u8>)
    ensures
        hash_chain(seed, 0) == seed,
{
}

/// A chain of `m + n` steps is `n` further steps from the chain of `m`.
pub proof fn law_chain_composes(seed: Seq<u8>, m: nat, n: nat)
    ensures
        hash_chain(seed, m + n) == hash_chain(hash_chain(seed, m), n),
    decreases n,
{
    if n > 0 {
        law_chain_composes(seed, m, (n - 1) as nat);
    }
}


/// Each iteration is exactly one SHA-256 evaluation of the previous
/// output: one iteration from a seed gives the seed's SHA-256, and every
/// further iteration hashes the previous output once more.
pub proof fn law_one_hash_per_iteration(seed: Seq<u8>, n: nat)
    ensures
        hash_chain(seed, 1) == spec_sha256(seed),
        hash_chain(seed, n + 1) == spec_sha256(hash_chain(seed, n)),
{
    assert(hash_chain(seed, 0) == seed);
}

} // verus!
