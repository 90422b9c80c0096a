//! Social attestation chains: offline detection of double spends.
//!
//! Each offline transfer yields a signed attestation linking to the
//! previous one. Two chains for the same token that disagree at some
//! position expose the sender at that position as a double spender.

use vstd::prelude::*;
use vstd::string::*;
use crate::hashing::{spec_sha256, spec_sha512};
use crate::bytes::le_nat;
use crate::scalar::{enc, is_scalar, sc, group_order};
use crate::group::{encodes, ristretto_valid, schnorr_holds, spec_basepoint_mul};

verus! {

broadcast use crate::scalar::lemma_enc, vstd::array::axiom_array_ext_equal;

/// A Schnorr signature on an attestation.
#[derive(Clone, Copy, Debug, PartialEq, Eq)]
pub struct AttestationSig {
    pub r: [u8; 32],
    pub s: [u8; 32],
}

/// A witness record of one transfer, signed by the sender.
#[derive(Clone, Copy, Debug)]
pub struct Attestation {
    /// Token being transferred.
    pub token_id: [u8; 32],
    /// Hash of the sender's identity commitment.
    pub sender_hash: [u8; 32],
    /// Sender's public key.
    pub sender_pubkey: [u8; 32],
    /// Hash of the receiver's identity commitment.
    pub receiver_hash: [u8; 32],
    /// Position in the transfer chain (0 = first transfer).
    pub chain_position: u32,
    /// Hash of the previous attestation (zeros for the first).
    pub prev_hash: [u8; 32],
    /// Hash binding all the fields above.
    pub hash: [u8; 32],
    /// The sender's signature on `hash`.
    pub signature: AttestationSig,
}

/// The bytes hashed into an attestation's hash.
pub open spec fn attestation_hash_input(token_id: [u8; 32], sender: [u8; 32], receiver: [u8; 32], position: u32, prev: [u8; 32]) -> Seq<u8> {
    "specter-attestation:".spec_bytes() + token_id@ + sender@ + receiver@ + vstd::bytes::spec_u32_to_le_bytes(position) + prev@
}

/// The hash of an attestation's contents.
pub open spec fn spec_attestation_hash(token_id: [u8; 32], sender: [u8; 32], receiver: [u8; 32], position: u32, prev: [u8; 32]) -> Seq<u8> {
    spec_sha256(attestation_hash_input(token_id, sender, receiver, position, prev))
}

/// The Schnorr challenge of an attestation signature.
pub open spec fn spec_attestation_challenge(r: Seq<u8>, pk: Seq<u8>, msg: Seq<u8>) -> Seq<u8> {
    enc(le_nat(spec_sha512("specter-attestation-sig:".spec_bytes() + r + pk + msg)) as int)
}

/// Whether an attestation's signature is valid for its sender key.
pub open spec fn attestation_signature_valid(a: Attestation) -> bool {
    &&& ristretto_valid(a.signature.r@)
    &&& is_scalar(a.signature.s)
    &&& ristretto_valid(a.sender_pubkey@)
    &&& schnorr_holds(a.signature.r@, a.signature.s@,
            spec_attestation_challenge(a.signature.r@, a.sender_pubkey@, a.hash@), a.sender_pubkey@)
}

fn compute_hash(token_id: &[u8; 32], sender: &[u8; 32], receiver: &[u8; 32], position: u32, prev: &[u8; 32]) -> (h: [u8; 32])
    ensures
        h@ == spec_attestation_hash(*token_id, *sender, *receiver, position, *prev),
{
    let mut buf: Vec<u8> = Vec::new();
    crate::bytes::append_bytes(&mut buf, "specter-attestation:".as_bytes());
    crate::bytes::append_bytes(&mut buf, token_id);
    crate::bytes::append_bytes(&mut buf, sender);
    crate::bytes::append_bytes(&mut buf, receiver);
    let pb = vstd::bytes::u32_to_le_bytes(position);
    crate::bytes::append_bytes(&mut buf, pb.as_slice());
    crate::bytes::append_bytes(&mut buf, prev);
    crate::hashing::sha256(buf.as_slice())
}

fn sig_challenge(r: &[u8; 32], pk: &[u8; 32], msg: &[u8; 32]) -> (e: [u8; 32])
    ensures
        is_scalar(e),
        e@ == spec_attestation_challenge(r@, pk@, msg@),
{
    let mut buf: Vec<u8> = Vec::new();
    crate::bytes::append_bytes(&mut buf, "specter-attestation-sig:".as_bytes());
    crate::bytes::append_bytes(&mut buf, r);
    crate::bytes::append_bytes(&mut buf, pk);
    crate::bytes::append_bytes(&mut buf, msg);
    let h = crate::hashing::sha512(buf.as_slice());
    crate::group::scalar_from_digest(&h)
}

impl Attestation {
    /// A new attestation, signed by the sender with a fresh random nonce.
    pub fn new_signed(
        token_id: [u8; 32],
        sender_hash: [u8; 32],
        sender_secret: &[u8; 32],
        sender_pubkey: [u8; 32],
        receiver_hash: [u8; 32],
        chain_position: u32,
        prev_hash: [u8; 32],
    ) -> (a: Self)
        requires
            is_scalar(*sender_secret),
        ensures
            a.token_id == token_id,
            a.sender_hash == sender_hash,
            a.sender_pubkey == sender_pubkey,
            a.receiver_hash == receiver_hash,
            a.chain_position == chain_position,
            a.prev_hash == prev_hash,
            a.hash@ == spec_attestation_hash(token_id, sender_hash, receiver_hash, chain_position, prev_hash),
            ristretto_valid(a.signature.r@),
            is_scalar(a.signature.s),
            exists|k: [u8; 32]| is_scalar(k) && a.signature.r@ == #[trigger] spec_basepoint_mul(k@)
                && a.signature.s@ == enc(sc(k) + ((le_nat(spec_attestation_challenge(a.signature.r@, sender_pubkey@, a.hash@))
                    * sc(*sender_secret)) % group_order()) as int),
            ristretto_valid(sender_pubkey@) && encodes(sender_pubkey@, sc(*sender_secret) as int)
                ==> attestation_signature_valid(a),
    {
        let hash = compute_hash(&token_id, &sender_hash, &receiver_hash, chain_position, &prev_hash);
        let k = crate::group::random_scalar();
        let r = crate::group::basepoint_mul(k);
        let challenge = sig_challenge(&r, &sender_pubkey, &hash);
        let s = crate::group::schnorr_response(k, challenge, *sender_secret);
        let a = Attestation {
            token_id,
            sender_hash,
            sender_pubkey,
            receiver_hash,
            chain_position,
            prev_hash,
            hash,
            signature: AttestationSig { r, s },
        };
        assert(is_scalar(k) && a.signature.r@ == spec_basepoint_mul(k@));
        proof {
            if encodes(sender_pubkey@, sc(*sender_secret) as int) {
                crate::group::lemma_schnorr_response_holds(r@, s@, challenge@, sender_pubkey@, sc(k) as int, sc(*sender_secret) as int);
            }
        }
        a
    }

    /// Verify the sender's signature on this attestation.
    pub fn verify_signature(&self) -> (ok: bool)
        ensures
            ok == attestation_signature_valid(*self),
    {
        if !crate::group::point_is_valid(&self.signature.r) || !crate::group::point_is_valid(&self.sender_pubkey) {
            return false;
        }
        let s = match crate::group::scalar_from_canonical(self.signature.s) {
            Some(s) => s,
            None => return false,
        };
        let challenge = sig_challenge(&self.signature.r, &self.sender_pubkey, &self.hash);
        crate::group::schnorr_check(self.signature.r, s, challenge, self.sender_pubkey)
    }
}

/// The hash an attestation at a position links back to.
pub open spec fn expected_prev(atts: Seq<Attestation>, i: int) -> [u8; 32] {
    if i == 0 { [0u8; 32usize] } else { atts[i - 1].hash }
}

/// The structural integrity of attestation `i` of a chain: position,
/// link to the previous attestation, hash, and token.
pub open spec fn link_ok(token_id: [u8; 32], atts: Seq<Attestation>, i: int) -> bool {
    let a = atts[i];
    &&& a.chain_position as int == i
    &&& a.prev_hash == expected_prev(atts, i)
    &&& a.hash@ == spec_attestation_hash(a.token_id, a.sender_hash, a.receiver_hash, a.chain_position, a.prev_hash)
    &&& a.token_id == token_id
}

/// Whether every attestation of a chain is linked correctly.
pub open spec fn chain_linked(token_id: [u8; 32], atts: Seq<Attestation>) -> bool {
    forall|i: int| 0 <= i < atts.len() ==> #[trigger] link_ok(token_id, atts, i)
}

/// The transfer history of a token as witnessed by one device.
#[derive(Clone, Debug)]
pub struct AttestationChain {
    /// The token this chain tracks.
    pub token_id: [u8; 32],
    /// Ordered list of attestations.
    pub attestations: Vec<Attestation>,
}

impl AttestationChain {
    /// An empty chain for a token.
    pub fn new(token_id: [u8; 32]) -> (c: Self)
        ensures
            c.token_id == token_id,
            c.attestations@.len() == 0,
    {
        AttestationChain { token_id, attestations: Vec::new() }
    }

    /// Append a signed attestation of a transfer from `sender_hash` to
    /// `receiver_hash`, at the next position and linked to the last one.
    pub fn add_transfer(&mut self, sender_hash: [u8; 32], sender_secret: &[u8; 32], sender_pubkey: [u8; 32], receiver_hash: [u8; 32])
        requires
            is_scalar(*sender_secret),
            old(self).attestations@.len() < u32::MAX,
        ensures
            final(self).token_id == old(self).token_id,
            final(self).attestations@.len() == old(self).attestations@.len() + 1,
            final(self).attestations@.drop_last() == old(self).attestations@,
            ({
                let a = final(self).attestations@.last();
                &&& a.token_id == old(self).token_id
                &&& a.sender_hash == sender_hash
                &&& a.sender_pubkey == sender_pubkey
                &&& a.receiver_hash == receiver_hash
                &&& a.chain_position as int == old(self).attestations@.len()
                &&& a.prev_hash == expected_prev(final(self).attestations@, old(self).attestations@.len() as int)
                &&& a.hash@ == spec_attestation_hash(a.token_id, a.sender_hash, a.receiver_hash, a.chain_position, a.prev_hash)
            }),
    {
        let position = self.attestations.len() as u32;
        let prev_hash = if self.attestations.len() == 0 {
            [0u8; 32]
        } else {
            self.attestations[self.attestations.len() - 1].hash
        };
        let att = Attestation::new_signed(self.token_id, sender_hash, sender_secret, sender_pubkey, receiver_hash, position, prev_hash);
        self.attestations.push(att);
        assert(self.attestations@.drop_last() =~= old(self).attestations@);
    }

    /// Whether every attestation has the right position, link, hash and
    /// token, and a valid sender signature.
    pub fn verify_integrity(&self) -> (ok: bool)
        ensures
            ok == (chain_linked(self.token_id, self.attestations@)
                && forall|i: int| 0 <= i < self.attestations@.len() ==> attestation_signature_valid(#[trigger] self.attestations@[i])),
    {
        let mut i: usize = 0;
        while i < self.attestations.len()
            invariant
                0 <= i <= self.attestations@.len(),
                forall|j: int| 0 <= j < i ==> #[trigger] link_ok(self.token_id, self.attestations@, j),
                forall|j: int| 0 <= j < i ==> attestation_signature_valid(#[trigger] self.attestations@[j]),
            decreases self.attestations@.len() - i,
        {
            let att = &self.attestations[i];
            if i > u32::MAX as usize || att.chain_position != i as u32 {
                assert(!link_ok(self.token_id, self.attestations@, i as int));
                return false;
            }
            let expected_prev_hash = if i == 0 { [0u8; 32] } else { self.attestations[i - 1].hash };
            if !crate::bytes::bytes32_eq(&att.prev_hash, &expected_prev_hash) {
                assert(!link_ok(self.token_id, self.attestations@, i as int));
                return false;
            }
            let expected_hash = compute_hash(&att.token_id, &att.sender_hash, &att.receiver_hash, att.chain_position, &att.prev_hash);
            if !crate::bytes::bytes32_eq(&att.hash, &expected_hash) {
                assert(!link_ok(self.token_id, self.attestations@, i as int));
                return false;
            }
            if !crate::bytes::bytes32_eq(&att.token_id, &self.token_id) {
                assert(!link_ok(self.token_id, self.attestations@, i as int));
                return false;
            }
            if !att.verify_signature() {
                return false;
            }
            assert(att.prev_hash =~= expected_prev(self.attestations@, i as int));
            assert(att.hash =~= expected_hash);
            assert(att.token_id =~= self.token_id);
            assert(link_ok(self.token_id, self.attestations@, i as int));
            i = i + 1;
        }
        true
    }

    /// Number of witnesses in the chain.
    pub fn witness_count(&self) -> (n: usize)
        ensures
            n == self.attestations@.len(),
    {
        self.attestations.len()
    }
}

/// The outcome of comparing two chains.
#[derive(Debug, PartialEq, Eq, Clone, Copy)]
pub enum ChainComparison {
    /// The chains agree on their common prefix.
    Consistent,
    /// The chains disagree at a position: a double spend by that
    /// position's sender.
    Conflict { position: u32, cheater_hash: [u8; 32] },
    /// The chains track different tokens.
    DifferentTokens,
}

/// Compare two chains: the first position where their attestation hashes
/// differ names the double spender.
pub fn detect_double_spend(chain_a: &AttestationChain, chain_b: &AttestationChain) -> (r: ChainComparison)
    requires
        chain_a.attestations@.len() <= u32::MAX,
    ensures
        chain_a.token_id != chain_b.token_id ==> r == ChainComparison::DifferentTokens,
        chain_a.token_id == chain_b.token_id ==> match r {
            ChainComparison::DifferentTokens => false,
            ChainComparison::Consistent => forall|i: int| 0 <= i < chain_a.attestations@.len() && 0 <= i < chain_b.attestations@.len()
                ==> chain_a.attestations@[i].hash == chain_b.attestations@[i].hash,
            ChainComparison::Conflict { position, cheater_hash } => {
                &&& position < chain_a.attestations@.len() && position < chain_b.attestations@.len()
                &&& chain_a.attestations@[position as int].hash != chain_b.attestations@[position as int].hash
                &&& cheater_hash == chain_a.attestations@[position as int].sender_hash
                &&& forall|i: int| 0 <= i < position ==> chain_a.attestations@[i].hash == chain_b.attestations@[i].hash
            },
        },
{
    if !crate::bytes::bytes32_eq(&chain_a.token_id, &chain_b.token_id) {
        return ChainComparison::DifferentTokens;
    }
    assert(chain_a.token_id =~= chain_b.token_id);
    let la = chain_a.attestations.len();
    let lb = chain_b.attestations.len();
    let min_len = if la < lb { la } else { lb };
    let mut i: usize = 0;
    while i < min_len
        invariant
            0 <= i <= min_len,
            min_len <= chain_a.attestations@.len(),
            min_len <= chain_b.attestations@.len(),
            min_len == chain_a.attestations@.len() || min_len == chain_b.attestations@.len(),
            chain_a.attestations@.len() <= u32::MAX,
            chain_a.token_id == chain_b.token_id,
            forall|j: int| 0 <= j < i ==> chain_a.attestations@[j].hash == chain_b.attestations@[j].hash,
        decreases min_len - i,
    {
        let a = &chain_a.attestations[i];
        let b = &chain_b.attestations[i];
        if !crate::bytes::bytes32_eq(&a.hash, &b.hash) {
            return ChainComparison::Conflict { position: i as u32, cheater_hash: a.sender_hash };
        }
        assert(a.hash =~= b.hash);
        i = i + 1;
    }
    ChainComparison::Consistent
}

/// Appending an attestation as `add_transfer` does keeps a linked chain
/// linked.
pub proof fn law_add_transfer_keeps_chain_linked(token_id: [u8; 32], before: Seq<Attestation>, after: Seq<Attestation>)
    requires
        chain_linked(token_id, before),
        after.len() == before.len() + 1,
        after.drop_last() == before,
        after.last().token_id == token_id,
        after.last().chain_position as int == before.len(),
        after.last().prev_hash == expected_prev(after, before.len() as int),
        after.last().hash@ == spec_attestation_hash(after.last().token_id, after.last().sender_hash,
            after.last().receiver_hash, after.last().chain_position, after.last().prev_hash),
    ensures
        chain_linked(token_id, after),
{
    assert forall|i: int| 0 <= i < after.len() implies #[trigger] link_ok(token_id, after, i) by {
        if i < before.len() {
            assert(link_ok(token_id, before, i));
            assert(after[i] == before[i]);
            if i > 0 {
                assert(after[i - 1] == before[i - 1]);
            }
        }
    }
}

} // verus!
