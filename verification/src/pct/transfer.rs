//! Spending a token: it moves to a fresh owner secret, its nullifier is
//! published, and its history advances by a step signed by the previous
//! owner.

use vstd::prelude::*;
use crate::hashing::spec_shake256;
use crate::pct::nullifier::{NullifierSet, spec_nullifier};
use crate::pct::token::{ProofCarryingToken, FoldProof, hash_chain_input};
use crate::fold::accumulator::{FoldError, owner_signing_key, spec_owner_pk_hash, spec_transfer_challenge, spec_transfer_message};
use crate::group::{ristretto_valid, spec_basepoint_mul, schnorr_holds};
use crate::scalar::{is_scalar, sc};

verus! {

/// A completed transfer: the token, now held by the recipient, and the
/// nullifier to publish.
pub struct TransferResult {
    pub token: ProofCarryingToken,
    pub spent_nullifier: [u8; 32],
}

/// Why a transfer is refused.
#[derive(Debug, PartialEq, Eq, Clone, Copy)]
pub enum TransferError {
    /// The token has used up its transfers.
    NeedsRenewal { transfer_count: u32, bound: u32 },
    /// The token's nullifier is already spent.
    DoubleSpend { nullifier: [u8; 32] },
    /// The token's value is zero.
    InvalidTokenValue,
    /// The transfer history cannot be extended.
    FoldFailed(FoldError),
}

/// The nullifier of a token, as an array.
pub open spec fn nullifier_of(t: ProofCarryingToken) -> [u8; 32] {
    choose|n: [u8; 32]| n@ == spec_nullifier(t.owner_secret, t.token_id)
}

proof fn lemma_nullifier_of(t: ProofCarryingToken, n: [u8; 32])
    requires
        n@ == spec_nullifier(t.owner_secret, t.token_id),
    ensures
        n == nullifier_of(t),
{
    let c = nullifier_of(t);
    assert(c@ == spec_nullifier(t.owner_secret, t.token_id));
    assert(c =~= n) by {
        assert forall|i: int| 0 <= i < 32 implies c[i] == n[i] by {
            assert(c@[i] == n@[i]);
        }
    }
}

/// The verdict on spending `t` against the spent set `spent`, if the
/// transfer is refused.
pub open spec fn transfer_refusal(t: ProofCarryingToken, spent: Set<[u8; 32]>) -> Option<TransferError> {
    if t.value == 0 {
        Some(TransferError::InvalidTokenValue)
    } else if t.transfer_count >= t.recursion_bound {
        Some(TransferError::NeedsRenewal { transfer_count: t.transfer_count, bound: t.recursion_bound })
    } else if spent.contains(nullifier_of(t)) {
        Some(TransferError::DoubleSpend { nullifier: nullifier_of(t) })
    } else if t.fold_proof.steps >= t.recursion_bound {
        Some(TransferError::FoldFailed(FoldError::BoundExceeded { steps: t.fold_proof.steps, bound: t.recursion_bound }))
    } else if spec_basepoint_mul(owner_signing_key(t.owner_secret@)) != t.fold_proof.pk@ {
        Some(TransferError::FoldFailed(FoldError::PrevOwnerMismatch))
    } else {
        None
    }
}

/// The token after a transfer to the owner secret `secret`, with the
/// hash chain head `head` and the fold proof `fp`.
pub open spec fn transferred(t: ProofCarryingToken, secret: [u8; 32], head: [u8; 32], fp: FoldProof) -> ProofCarryingToken {
    ProofCarryingToken {
        owner_secret: secret,
        hash_chain_head: head,
        transfer_count: (t.transfer_count + 1) as u32,
        fold_proof: fp,
        ..t
    }
}

/// `fp` extends `old` by one step of token `token_id` to the owner of
/// `secret`: the step's new owner key is that owner's signing key, the
/// step is Schnorr-signed under the previous owner key `old.pk` over the
/// step message, and the count goes up by one; the other fields are kept.
pub open spec fn signed_step(old: FoldProof, fp: FoldProof, token_id: [u8; 32], secret: [u8; 32]) -> bool {
    &&& fp == (FoldProof { s: fp.s, e: fp.e, r: fp.r, pk: fp.pk, current_owner_hash: fp.current_owner_hash,
            steps: (old.steps + 1) as u32, ..old })
    &&& fp.pk@ == spec_basepoint_mul(owner_signing_key(secret@))
    &&& ristretto_valid(fp.pk@)
    &&& fp.current_owner_hash@ == spec_owner_pk_hash(fp.pk@)
    &&& ristretto_valid(fp.r@)
    &&& is_scalar(fp.s)
    &&& fp.e@ == spec_transfer_challenge(fp.r@, old.pk@, spec_transfer_message(token_id@, fp.steps, fp.pk@))
    &&& schnorr_holds(fp.r@, fp.s@, fp.e@, old.pk@)
}

/// Transfers a token to a new owner: checks the value and the transfer
/// bound, marks the nullifier spent (refusing a spent one), refuses a
/// token whose owner secret does not hold the key of its fold proof's
/// current owner, draws a fresh owner secret, advances the hash chain with
/// it, appends a step to the new owner signed with the old owner's key,
/// and counts the transfer.
pub fn transfer(token: ProofCarryingToken, nullifier_set: &mut NullifierSet) -> (r: Result<TransferResult, TransferError>)
    requires
        old(nullifier_set).wf(),
    ensures
        final(nullifier_set).wf(),
        match transfer_refusal(token, old(nullifier_set)@) {
            Some(e) => r == Err::<TransferResult, TransferError>(e)
                && if e is FoldFailed {
                    final(nullifier_set)@ == old(nullifier_set)@.insert(nullifier_of(token))
                } else {
                    final(nullifier_set)@ == old(nullifier_set)@
                },
            None => r is Ok && {
                let res = r->Ok_0;
                &&& res.spent_nullifier == nullifier_of(token)
                &&& final(nullifier_set)@ == old(nullifier_set)@.insert(res.spent_nullifier)
                &&& res.token == transferred(token, res.token.owner_secret, res.token.hash_chain_head, res.token.fold_proof)
                &&& res.token.hash_chain_head@ == spec_shake256(hash_chain_input(token.hash_chain_head, res.token.owner_secret@), 32)
                &&& signed_step(token.fold_proof, res.token.fold_proof, token.token_id, res.token.owner_secret)
            },
        },
{
    if token.value == 0 {
        return Err(TransferError::InvalidTokenValue);
    }
    if token.needs_renewal() {
        return Err(TransferError::NeedsRenewal { transfer_count: token.transfer_count, bound: token.recursion_bound });
    }
    let spent_nullifier = token.compute_nullifier();
    proof { lemma_nullifier_of(token, spent_nullifier); }
    if !nullifier_set.insert(spent_nullifier) {
        return Err(TransferError::DoubleSpend { nullifier: spent_nullifier });
    }
    if token.fold_proof.steps >= token.recursion_bound {
        return Err(TransferError::FoldFailed(FoldError::BoundExceeded { steps: token.fold_proof.steps, bound: token.recursion_bound }));
    }
    let prev_owner_sk = crate::fold::accumulator::derive_owner_signing_key(&token.owner_secret);
    let prev_owner_pk = crate::group::basepoint_mul(prev_owner_sk);
    if !crate::ct::ct_eq32(&prev_owner_pk, &token.fold_proof.pk) {
        return Err(TransferError::FoldFailed(FoldError::PrevOwnerMismatch));
    }
    let fresh = crate::rng::random_bytes(32);
    let new_owner_secret = crate::bytes::to_array32(fresh.as_slice());
    let new_hash_chain = crate::pct::token::advance_hash_chain(&token.hash_chain_head, &new_owner_secret);
    let new_owner_pk = crate::fold::accumulator::derive_owner_signing_pk(&new_owner_secret);
    let step = token.fold_proof.steps + 1;
    let msg = crate::fold::accumulator::transfer_message(&token.token_id, step, &new_owner_pk);
    let k = crate::group::random_scalar();
    let sig_r = crate::group::basepoint_mul(k);
    let e = crate::fold::accumulator::transfer_challenge(&sig_r, &prev_owner_pk, &msg);
    let sig_s = crate::group::schnorr_response(k, e, prev_owner_sk);
    proof {
        crate::group::lemma_schnorr_response_holds(sig_r@, sig_s@, e@, prev_owner_pk@, sc(k) as int, sc(prev_owner_sk) as int);
    }
    let owner_hash = crate::fold::accumulator::owner_pk_hash(&new_owner_pk);
    let mut new_token = token;
    new_token.owner_secret = new_owner_secret;
    new_token.hash_chain_head = new_hash_chain;
    new_token.transfer_count = new_token.transfer_count + 1;
    new_token.fold_proof.s = sig_s;
    new_token.fold_proof.e = e;
    new_token.fold_proof.r = sig_r;
    new_token.fold_proof.pk = new_owner_pk;
    new_token.fold_proof.current_owner_hash = owner_hash;
    new_token.fold_proof.steps = step;
    Ok(TransferResult { token: new_token, spent_nullifier })
}

/// Marks a nullifier spent, refusing one already spent.
pub fn check_double_spend(nullifier_set: &mut NullifierSet, nullifier: &[u8; 32]) -> (r: Result<(), TransferError>)
    requires
        old(nullifier_set).wf(),
    ensures
        final(nullifier_set).wf(),
        final(nullifier_set)@ == old(nullifier_set)@.insert(*nullifier),
        r is Ok <==> !old(nullifier_set)@.contains(*nullifier),
        r is Err ==> r == Err::<(), TransferError>(TransferError::DoubleSpend { nullifier: *nullifier }),
{
    if !nullifier_set.insert(*nullifier) {
        return Err(TransferError::DoubleSpend { nullifier: *nullifier });
    }
    Ok(())
}

/// Once a token has been spent, spending it again — the same owner secret
/// and token id — is refused as a double spend.
pub proof fn law_respend_is_double_spend(t: ProofCarryingToken, spent: Set<[u8; 32]>)
    requires
        t.value != 0,
        t.transfer_count < t.recursion_bound,
    ensures
        transfer_refusal(t, spent.insert(nullifier_of(t)))
            == Some(TransferError::DoubleSpend { nullifier: nullifier_of(t) }),
{
}

} // verus!
