//! The signed transfer chain a token carries as proof of its history.
//!
//! The chain starts at the genesis owner's public key, which the mint's
//! signed message anchors through its hash. Each transfer appends a step:
//! the new owner's public key and a Schnorr signature, by the previous
//! owner's signing key, on `(token_id, step number, new owner key)`.
//! Verification walks the chain from the genesis key and checks every
//! signature against the key of the owner before it.

use vstd::prelude::*;
use vstd::string::*;
use crate::bytes::le_nat;
use crate::hashing::{spec_sha512, spec_shake256};
use crate::scalar::{enc, sc, is_scalar, group_order};
use crate::group::{ristretto_valid, spec_basepoint_mul, schnorr_holds};

verus! {

broadcast use crate::scalar::lemma_enc;

/// One transfer: the new owner's key and the previous owner's signature.
#[derive(Clone, Copy, Debug)]
pub struct TransferStep {
    pub new_owner_pk: [u8; 32],
    /// Nonce commitment `R = k·B`.
    pub sig_r: [u8; 32],
    /// Response `s = k + e·sk` of the previous owner.
    pub sig_s: [u8; 32],
}

/// The proof of a token's transfer history.
#[derive(Clone, Debug)]
pub struct AccumulatedProof {
    /// The owner at mint time.
    pub genesis_owner_pk: [u8; 32],
    /// The transfer steps, in order.
    pub steps_chain: Vec<TransferStep>,
    /// The number of steps.
    pub steps: u32,
}

/// The token and owner a chain is checked against.
#[derive(Clone, Copy, Debug)]
pub struct TransferState {
    pub token_id: [u8; 32],
    /// Hash of the owner's public key.
    pub owner_hash: [u8; 32],
    pub step: u32,
}

/// Errors of extending a chain.
#[derive(Debug, PartialEq, Eq, Clone, Copy)]
pub enum FoldError {
    /// The chain already has as many steps as the bound allows.
    BoundExceeded { steps: u32, bound: u32 },
    /// The signing key is not the current owner's.
    PrevOwnerMismatch,
    /// Extending a chain without a signature is not supported.
    DeprecatedUnsignedFold,
}

impl TransferState {
    /// The token id, the owner hash and the step (little-endian).
    pub fn to_bytes(&self) -> (b: Vec<u8>)
        ensures
            b@ == self.token_id@ + self.owner_hash@ + vstd::bytes::spec_u32_to_le_bytes(self.step),
    {
        let mut bytes: Vec<u8> = Vec::new();
        crate::bytes::append_bytes(&mut bytes, &self.token_id);
        crate::bytes::append_bytes(&mut bytes, &self.owner_hash);
        let st = vstd::bytes::u32_to_le_bytes(self.step);
        crate::bytes::append_bytes(&mut bytes, st.as_slice());
        bytes
    }
}

// ─── Keys ──────────────────────────────────────────────────────────────

/// The owner's signing scalar: 64 bytes of SHAKE-256 of
/// `"specter-owner-signing:" ‖ secret`, reduced mod ℓ.
pub open spec fn owner_signing_key(owner_secret: Seq<u8>) -> Seq<u8> {
    enc(le_nat(spec_shake256("specter-owner-signing:".spec_bytes() + owner_secret, 64)) as int)
}

/// The hash that anchors an owner key: 32 bytes of SHAKE-256 of
/// `"specter-owner-pk-hash:" ‖ pk`.
pub open spec fn spec_owner_pk_hash(pk: Seq<u8>) -> Seq<u8> {
    spec_shake256("specter-owner-pk-hash:".spec_bytes() + pk, 32)
}

/// The message of a transfer step: 32 bytes of SHAKE-256 of
/// `"specter-transfer-step:" ‖ token_id ‖ step (u32 LE) ‖ new_owner_pk`.
pub open spec fn spec_transfer_message(token_id: Seq<u8>, step: u32, new_owner_pk: Seq<u8>) -> Seq<u8> {
    spec_shake256("specter-transfer-step:".spec_bytes() + token_id + vstd::bytes::spec_u32_to_le_bytes(step) + new_owner_pk, 32)
}

/// The challenge of a step signature.
pub open spec fn spec_transfer_challenge(r: Seq<u8>, pk: Seq<u8>, msg: Seq<u8>) -> Seq<u8> {
    enc(le_nat(spec_sha512("specter-transfer-challenge:".spec_bytes() + r + pk + msg)) as int)
}

/// Derives the signing scalar from the owner's secret.
pub fn derive_owner_signing_key(owner_secret: &[u8; 32]) -> (sk: [u8; 32])
    ensures
        is_scalar(sk),
        sk@ == owner_signing_key(owner_secret@),
{
    let mut buf: Vec<u8> = Vec::new();
    crate::bytes::append_bytes(&mut buf, "specter-owner-signing:".as_bytes());
    crate::bytes::append_bytes(&mut buf, owner_secret);
    let mut wide = crate::hashing::shake256(buf.as_slice(), 64);
    let w = crate::bytes::to_array64(wide.as_slice());
    crate::rng::wipe(wide.as_mut_slice());
    crate::group::scalar_from_digest(&w)
}

/// The public signing key of an owner.
pub fn derive_owner_signing_pk(owner_secret: &[u8; 32]) -> (pk: [u8; 32])
    ensures
        pk@ == spec_basepoint_mul(owner_signing_key(owner_secret@)),
        ristretto_valid(pk@),
{
    let sk = derive_owner_signing_key(owner_secret);
    crate::group::basepoint_mul(sk)
}

/// The anchor hash of an owner's public key.
pub fn owner_pk_hash(pk: &[u8; 32]) -> (h: [u8; 32])
    ensures
        h@ == spec_owner_pk_hash(pk@),
{
    let mut buf: Vec<u8> = Vec::new();
    crate::bytes::append_bytes(&mut buf, "specter-owner-pk-hash:".as_bytes());
    crate::bytes::append_bytes(&mut buf, pk);
    let out = crate::hashing::shake256(buf.as_slice(), 32);
    crate::bytes::to_array32(out.as_slice())
}

pub(crate) fn transfer_message(token_id: &[u8; 32], step: u32, new_owner_pk: &[u8; 32]) -> (m: [u8; 32])
    ensures
        m@ == spec_transfer_message(token_id@, step, new_owner_pk@),
{
    let mut buf: Vec<u8> = Vec::new();
    crate::bytes::append_bytes(&mut buf, "specter-transfer-step:".as_bytes());
    crate::bytes::append_bytes(&mut buf, token_id);
    let st = vstd::bytes::u32_to_le_bytes(step);
    crate::bytes::append_bytes(&mut buf, st.as_slice());
    crate::bytes::append_bytes(&mut buf, new_owner_pk);
    let out = crate::hashing::shake256(buf.as_slice(), 32);
    crate::bytes::to_array32(out.as_slice())
}

pub(crate) fn transfer_challenge(r: &[u8; 32], pk: &[u8; 32], msg: &[u8; 32]) -> (e: [u8; 32])
    ensures
        is_scalar(e),
        e@ == spec_transfer_challenge(r@, pk@, msg@),
{
    let mut buf: Vec<u8> = Vec::new();
    crate::bytes::append_bytes(&mut buf, "specter-transfer-challenge:".as_bytes());
    crate::bytes::append_bytes(&mut buf, r);
    crate::bytes::append_bytes(&mut buf, pk);
    crate::bytes::append_bytes(&mut buf, msg);
    let h = crate::hashing::sha512(buf.as_slice());
    crate::group::scalar_from_digest(&h)
}

// ─── The chain ─────────────────────────────────────────────────────────

/// The owner key after the first `i` steps.
pub open spec fn owner_after(genesis: [u8; 32], chain: Seq<TransferStep>, i: int) -> [u8; 32] {
    if i <= 0 { genesis } else { chain[i - 1].new_owner_pk }
}

/// Whether step `i` (0-based) is validly signed by the owner before it.
pub open spec fn step_valid(token_id: [u8; 32], genesis: [u8; 32], chain: Seq<TransferStep>, i: int) -> bool {
    let prev = owner_after(genesis, chain, i);
    let st = chain[i];
    &&& ristretto_valid(prev@)
    &&& ristretto_valid(st.sig_r@)
    &&& is_scalar(st.sig_s)
    &&& schnorr_holds(st.sig_r@, st.sig_s@,
            spec_transfer_challenge(st.sig_r@, prev@, spec_transfer_message(token_id@, (i + 1) as u32, st.new_owner_pk@)), prev@)
}

/// Whether a proof verifies for a token whose genesis owner hash is
/// `anchor`: the genesis key hashes to the anchor, the step count is the
/// chain's length, and every step is validly signed.
pub open spec fn proof_valid(p: AccumulatedProof, token_id: [u8; 32], anchor: [u8; 32]) -> bool {
    &&& spec_owner_pk_hash(p.genesis_owner_pk@) == anchor@
    &&& p.steps as int == p.steps_chain@.len()
    &&& forall|i: int| 0 <= i < p.steps_chain@.len() ==> #[trigger] step_valid(token_id, p.genesis_owner_pk, p.steps_chain@, i)
}

impl AccumulatedProof {
    /// The current owner's key: that of the last step, or the genesis key.
    pub open spec fn current_owner(&self) -> [u8; 32] {
        owner_after(self.genesis_owner_pk, self.steps_chain@, self.steps_chain@.len() as int)
    }

    /// The current owner's public key.
    pub fn current_owner_pk(&self) -> (pk: [u8; 32])
        ensures
            pk == self.current_owner(),
    {
        let n = self.steps_chain.len();
        if n == 0 {
            self.genesis_owner_pk
        } else {
            self.steps_chain[n - 1].new_owner_pk
        }
    }

    /// The anchor hash of the genesis owner's key.
    pub fn genesis_owner_pk_hash(&self) -> (h: [u8; 32])
        ensures
            h@ == spec_owner_pk_hash(self.genesis_owner_pk@),
    {
        owner_pk_hash(&self.genesis_owner_pk)
    }
}

/// The proof of a freshly minted token whose genesis owner key is read
/// from the state's `owner_hash` when those bytes encode a group element,
/// and is the identity (whose discrete log is 0, so anyone can extend
/// the chain) otherwise. `create_initial_proof_with_pk` has no such
/// fallback.
pub fn create_initial_proof(genesis_state: &TransferState) -> (p: AccumulatedProof)
    ensures
        ristretto_valid(genesis_state.owner_hash@) ==> p.genesis_owner_pk == genesis_state.owner_hash,
        !ristretto_valid(genesis_state.owner_hash@) ==> p.genesis_owner_pk@ == Seq::new(32, |i: int| 0u8),
        p.steps_chain@.len() == 0,
        p.steps == 0,
{
    let genesis_owner_pk = if crate::group::point_is_valid(&genesis_state.owner_hash) {
        genesis_state.owner_hash
    } else {
        crate::group::identity_point()
    };
    AccumulatedProof { genesis_owner_pk, steps_chain: Vec::new(), steps: 0 }
}

/// The proof of a freshly minted token: no steps.
pub fn create_initial_proof_with_pk(_genesis_state: &TransferState, genesis_owner_pk: [u8; 32]) -> (p: AccumulatedProof)
    ensures
        p.genesis_owner_pk == genesis_owner_pk,
        p.steps_chain@.len() == 0,
        p.steps == 0,
{
    AccumulatedProof { genesis_owner_pk, steps_chain: Vec::new(), steps: 0 }
}

/// Extends the chain by one step to `new_owner_pk`, signed with the
/// current owner's signing key and a fresh nonce. Fails when the chain has
/// reached the bound, or when the key is not the current owner's.
pub fn fold_transfer_signed(
    current_proof: &AccumulatedProof,
    prev_owner_signing_sk: &[u8; 32],
    new_owner_pk: [u8; 32],
    token_id: &[u8; 32],
    recursion_bound: u32,
) -> (r: Result<AccumulatedProof, FoldError>)
    requires
        is_scalar(*prev_owner_signing_sk),
    ensures
        current_proof.steps >= recursion_bound ==> r == Err::<AccumulatedProof, FoldError>(
            FoldError::BoundExceeded { steps: current_proof.steps, bound: recursion_bound }),
        current_proof.steps < recursion_bound && spec_basepoint_mul(prev_owner_signing_sk@) != current_proof.current_owner()@
            ==> r == Err::<AccumulatedProof, FoldError>(FoldError::PrevOwnerMismatch),
        current_proof.steps < recursion_bound && spec_basepoint_mul(prev_owner_signing_sk@) == current_proof.current_owner()@ ==> {
            &&& r is Ok
            &&& {
                let p = r->Ok_0;
                let st = p.steps_chain@.last();
                let prev = current_proof.current_owner();
                &&& p.genesis_owner_pk == current_proof.genesis_owner_pk
                &&& p.steps == current_proof.steps + 1
                &&& p.steps_chain@.drop_last() == current_proof.steps_chain@
                &&& p.steps_chain@.len() == current_proof.steps_chain@.len() + 1
                &&& st.new_owner_pk == new_owner_pk
                &&& ristretto_valid(st.sig_r@)
                &&& is_scalar(st.sig_s)
                &&& exists|k: [u8; 32]| is_scalar(k) && st.sig_r@ == spec_basepoint_mul(k@)
                    && st.sig_s@ == #[trigger] enc(sc(k) + ((le_nat(spec_transfer_challenge(st.sig_r@, prev@,
                        spec_transfer_message(token_id@, p.steps, new_owner_pk@))) * sc(*prev_owner_signing_sk)) % group_order()) as int)
                &&& p.current_owner() == new_owner_pk
                &&& forall|anchor: [u8; 32]| #[trigger] proof_valid(*current_proof, *token_id, anchor) ==> proof_valid(p, *token_id, anchor)
            }
        },
{
    if current_proof.steps >= recursion_bound {
        return Err(FoldError::BoundExceeded { steps: current_proof.steps, bound: recursion_bound });
    }
    let new_step_number = current_proof.steps + 1;
    let prev_owner_pk = crate::group::basepoint_mul(*prev_owner_signing_sk);
    let expected_prev = current_proof.current_owner_pk();
    if !crate::ct::ct_eq32(&prev_owner_pk, &expected_prev) {
        return Err(FoldError::PrevOwnerMismatch);
    }
    let msg = transfer_message(token_id, new_step_number, &new_owner_pk);
    let k = crate::group::random_scalar();
    let sig_r = crate::group::basepoint_mul(k);
    let e = transfer_challenge(&sig_r, &prev_owner_pk, &msg);
    let sig_s = crate::group::schnorr_response(k, e, *prev_owner_signing_sk);
    let mut new_chain = copy_steps(&current_proof.steps_chain);
    let step = TransferStep { new_owner_pk, sig_r, sig_s };
    new_chain.push(step);
    let p = AccumulatedProof { genesis_owner_pk: current_proof.genesis_owner_pk, steps_chain: new_chain, steps: new_step_number };
    assert(p.steps_chain@.drop_last() =~= current_proof.steps_chain@);
    assert(is_scalar(k) && step.sig_r@ == spec_basepoint_mul(k@)
        && step.sig_s@ == enc(sc(k) + ((le_nat(spec_transfer_challenge(step.sig_r@, prev_owner_pk@,
            spec_transfer_message(token_id@, p.steps, new_owner_pk@))) * sc(*prev_owner_signing_sk)) % group_order()) as int));
    proof {
        crate::group::lemma_schnorr_response_holds(sig_r@, sig_s@, e@, prev_owner_pk@, sc(k) as int, sc(*prev_owner_signing_sk) as int);
        let n = current_proof.steps_chain@.len() as int;
        assert(p.steps_chain@[n] == step);
        assert(owner_after(p.genesis_owner_pk, p.steps_chain@, n) == current_proof.current_owner()) by {
            if n > 0 {
                assert(p.steps_chain@[n - 1] == current_proof.steps_chain@[n - 1]);
            }
        }
        assert forall|anchor: [u8; 32]| #[trigger] proof_valid(*current_proof, *token_id, anchor) implies proof_valid(p, *token_id, anchor) by {
            assert(step_valid(*token_id, p.genesis_owner_pk, p.steps_chain@, n));
            law_extension_keeps_prefix(*current_proof, p, *token_id, anchor);
        }
    }
    Ok(p)
}

/// The unsigned extension of earlier versions: refused.
pub fn fold_transfer(current_proof: &AccumulatedProof, _new_state: &TransferState, recursion_bound: u32) -> (r: Result<AccumulatedProof, FoldError>)
    ensures
        current_proof.steps >= recursion_bound ==> r == Err::<AccumulatedProof, FoldError>(
            FoldError::BoundExceeded { steps: current_proof.steps, bound: recursion_bound }),
        current_proof.steps < recursion_bound ==> r == Err::<AccumulatedProof, FoldError>(FoldError::DeprecatedUnsignedFold),
{
    if current_proof.steps >= recursion_bound {
        return Err(FoldError::BoundExceeded { steps: current_proof.steps, bound: recursion_bound });
    }
    Err(FoldError::DeprecatedUnsignedFold)
}

fn copy_steps(v: &Vec<TransferStep>) -> (r: Vec<TransferStep>)
    ensures
        r@ == v@,
{
    let mut r: Vec<TransferStep> = Vec::new();
    let mut i: usize = 0;
    while i < v.len()
        invariant
            0 <= i <= v@.len(),
            r@ == v@.take(i as int),
        decreases v@.len() - i,
    {
        r.push(v[i]);
        i = i + 1;
        assert(r@ =~= v@.take(i as int));
    }
    assert(v@.take(v@.len() as int) =~= v@);
    r
}

/// Checks one step's signature under the key of the owner before it.
fn check_step(token_id: &[u8; 32], prev: &[u8; 32], step: &TransferStep, number: u32) -> (ok: bool)
    ensures
        ok == (ristretto_valid(prev@) && ristretto_valid(step.sig_r@) && is_scalar(step.sig_s)
            && schnorr_holds(step.sig_r@, step.sig_s@,
                spec_transfer_challenge(step.sig_r@, prev@, spec_transfer_message(token_id@, number, step.new_owner_pk@)), prev@)),
{
    if !crate::group::point_is_valid(prev) || !crate::group::point_is_valid(&step.sig_r) {
        return false;
    }
    match crate::group::scalar_from_canonical(step.sig_s) {
        None => false,
        Some(s) => {
            let msg = transfer_message(token_id, number, &step.new_owner_pk);
            let e = transfer_challenge(&step.sig_r, prev, &msg);
            crate::group::schnorr_check(step.sig_r, s, e, *prev)
        },
    }
}

/// Verifies a proof against the token id and genesis owner hash of
/// `genesis_state`. Every step is checked, whatever the earlier ones gave.
pub fn verify_accumulated_proof(proof: &AccumulatedProof, genesis_state: &TransferState) -> (ok: bool)
    requires
        proof.steps_chain@.len() < u32::MAX,
    ensures
        ok == proof_valid(*proof, genesis_state.token_id, genesis_state.owner_hash),
{
    let anchor = owner_pk_hash(&proof.genesis_owner_pk);
    let anchor_ok = crate::ct::ct_eq32(&anchor, &genesis_state.owner_hash);
    let count_ok = proof.steps as usize == proof.steps_chain.len();
    let mut steps_ok = true;
    let mut current_pk = proof.genesis_owner_pk;
    let mut i: usize = 0;
    while i < proof.steps_chain.len()
        invariant
            0 <= i <= proof.steps_chain@.len(),
            proof.steps_chain@.len() < u32::MAX,
            current_pk == owner_after(proof.genesis_owner_pk, proof.steps_chain@, i as int),
            steps_ok == forall|j: int| 0 <= j < i ==> #[trigger] step_valid(genesis_state.token_id, proof.genesis_owner_pk, proof.steps_chain@, j),
        decreases proof.steps_chain@.len() - i,
    {
        let step = proof.steps_chain[i];
        let ok = check_step(&genesis_state.token_id, &current_pk, &step, (i as u32) + 1);
        assert(ok == step_valid(genesis_state.token_id, proof.genesis_owner_pk, proof.steps_chain@, i as int));
        steps_ok = steps_ok && ok;
        current_pk = step.new_owner_pk;
        i = i + 1;
    }
    anchor_ok && count_ok && steps_ok
}

/// A fresh proof whose genesis key hashes to the anchor verifies.
pub proof fn law_initial_proof_verifies(p: AccumulatedProof, token_id: [u8; 32], anchor: [u8; 32])
    requires
        p.steps == 0,
        p.steps_chain@.len() == 0,
        spec_owner_pk_hash(p.genesis_owner_pk@) == anchor@,
    ensures
        proof_valid(p, token_id, anchor),
{
}

/// A proof whose step count differs from its chain's length never
/// verifies, nor one whose genesis key does not hash to the anchor.
pub proof fn law_inconsistent_proof_rejected(p: AccumulatedProof, token_id: [u8; 32], anchor: [u8; 32])
    requires
        p.steps as int != p.steps_chain@.len() || spec_owner_pk_hash(p.genesis_owner_pk@) != anchor@,
    ensures
        !proof_valid(p, token_id, anchor),
{
}

/// Extending a chain keeps its earlier steps valid: a verifying proof
/// stays verifying up to its old length, and its new step is checked
/// against the old current owner.
pub proof fn law_extension_keeps_prefix(old: AccumulatedProof, new: AccumulatedProof, token_id: [u8; 32], anchor: [u8; 32])
    requires
        proof_valid(old, token_id, anchor),
        new.genesis_owner_pk == old.genesis_owner_pk,
        new.steps == old.steps + 1,
        new.steps_chain@.drop_last() == old.steps_chain@,
        new.steps_chain@.len() == old.steps_chain@.len() + 1,
        step_valid(token_id, new.genesis_owner_pk, new.steps_chain@, old.steps_chain@.len() as int),
    ensures
        proof_valid(new, token_id, anchor),
        new.current_owner() == new.steps_chain@.last().new_owner_pk,
{
    assert forall|i: int| 0 <= i < new.steps_chain@.len() implies #[trigger] step_valid(token_id, new.genesis_owner_pk, new.steps_chain@, i) by {
        if i < old.steps_chain@.len() {
            assert(new.steps_chain@[i] == old.steps_chain@[i]);
            if i > 0 {
                assert(new.steps_chain@[i - 1] == old.steps_chain@[i - 1]);
            }
            assert(step_valid(token_id, old.genesis_owner_pk, old.steps_chain@, i));
        }
    }
}

} // verus!
