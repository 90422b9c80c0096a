//! The proof-carrying token: a self-verifying bearer instrument.

use vstd::prelude::*;
use vstd::string::*;
use crate::hashing::spec_shake256;
use crate::blind::types::BlindSignature;
use crate::credential::credential::Credential;
use crate::credential::presentation::Presentation;
use crate::offline::vdf::VdfProof;

verus! {

/// A proof that the value commitment opens: a commitment and a response.
#[derive(Clone, Copy, Debug)]
pub struct ValueProof {
    pub commitment: [u8; 32],
    pub response: [u8; 32],
}

/// The accumulated transfer proof carried by a token.
#[derive(Clone, Copy, Debug)]
pub struct FoldProof {
    pub s: [u8; 32],
    pub e: [u8; 32],
    pub r: [u8; 32],
    pub pk: [u8; 32],
    pub state_hash: [u8; 32],
    pub pk_chain_hash: [u8; 32],
    pub genesis_state_hash: [u8; 32],
    pub current_owner_hash: [u8; 32],
    pub steps: u32,
}

/// A proof-carrying token.
#[derive(Clone, Debug)]
pub struct ProofCarryingToken {
    /// Unique token identifier.
    pub token_id: [u8; 32],
    /// Denomination.
    pub value: u64,
    /// Pedersen commitment to the value.
    pub value_commitment: [u8; 32],
    /// Proof about the value commitment.
    pub value_proof: ValueProof,
    /// The mint's blind signature.
    pub mint_signature: BlindSignature,
    /// The current owner's secret, from which the nullifier derives.
    pub owner_secret: [u8; 32],
    /// Head of the hash chain of transfers.
    pub hash_chain_head: [u8; 32],
    /// Number of transfers so far.
    pub transfer_count: u32,
    /// Transfers allowed before renewal.
    pub recursion_bound: u32,
    /// Accumulated transfer proof.
    pub fold_proof: FoldProof,
    /// Hash of the genesis owner's key.
    pub genesis_owner_hash: [u8; 32],
    /// Compliance credential, if any.
    pub credential: Option<Credential>,
    /// Selective-disclosure presentation, if any.
    pub presentation: Option<Presentation>,
    /// Time-lock proof, if any.
    pub vdf_proof: Option<VdfProof>,
    /// Owner of the reputation bond backing the token, if any.
    pub bond_owner_id: Option<[u8; 32]>,
}

impl ProofCarryingToken {
    /// Whether the token has used up its transfers and must be renewed.
    pub fn needs_renewal(&self) -> (b: bool)
        ensures
            b == (self.transfer_count >= self.recursion_bound),
    {
        self.transfer_count >= self.recursion_bound
    }

    /// Whether the token carries a compliance credential.
    pub fn has_credential(&self) -> (b: bool)
        ensures
            b == self.credential.is_some(),
    {
        self.credential.is_some()
    }

    /// Whether the token is backed by a reputation bond.
    pub fn has_bond(&self) -> (b: bool)
        ensures
            b == self.bond_owner_id.is_some(),
    {
        self.bond_owner_id.is_some()
    }

    /// Estimated size of the token's core fields in bytes.
    pub fn estimated_size(&self) -> (n: usize)
        ensures
            n == 240,
    {
        32 + 8 + 32 + 32 + 64 + 32 + 32 + 4 + 4
    }

    /// The nullifier that spending this token publishes.
    pub fn compute_nullifier(&self) -> (n: [u8; 32])
        ensures
            n@ == crate::pct::nullifier::spec_nullifier(self.owner_secret, self.token_id),
    {
        crate::pct::nullifier::compute_nullifier(&self.owner_secret, &self.token_id)
    }

    /// The message the mint signs: token id followed by the value commitment.
    pub fn signed_message(&self) -> (m: Vec<u8>)
        ensures
            m@ == self.token_id@ + self.value_commitment@,
    {
        let mut msg: Vec<u8> = Vec::new();
        crate::bytes::append_bytes(&mut msg, &self.token_id);
        crate::bytes::append_bytes(&mut msg, &self.value_commitment);
        msg
    }
}

/// The bytes absorbed when advancing a hash chain.
pub open spec fn hash_chain_input(head: [u8; 32], data: Seq<u8>) -> Seq<u8> {
    "specter-hash-chain:".spec_bytes() + head@ + data
}

/// Advance the hash chain by one step:
/// `SHAKE-256("specter-hash-chain:" ‖ head ‖ data)`, 32 bytes.
pub fn advance_hash_chain(current_head: &[u8; 32], new_data: &[u8]) -> (h: [u8; 32])
    ensures
        h@ == spec_shake256(hash_chain_input(*current_head, new_data@), 32),
{
    let mut buf: Vec<u8> = Vec::new();
    crate::bytes::append_bytes(&mut buf, "specter-hash-chain:".as_bytes());
    crate::bytes::append_bytes(&mut buf, current_head);
    crate::bytes::append_bytes(&mut buf, new_data);
    let out = crate::hashing::shake256(buf.as_slice(), 32);
    crate::bytes::to_array32(out.as_slice())
}

} // verus!
