//! Byzantine fault-tolerant agreement on blocks of nullifiers.
//!
//! A rotating leader proposes a block of pending nullifiers; validators
//! cast Schnorr-signed votes; a block with a quorum of approving votes is
//! committed. With `n ≥ 4` validators the quorum is `2f + 1` for
//! `f = ⌊(n − 1)/3⌋`; with fewer, every validator must approve.

use vstd::prelude::*;
use vstd::string::*;
use std::collections::HashMap;
use crate::table::{Table, TableKey};
use crate::hashing::{spec_sha256, spec_sha512};
use crate::bytes::le_nat;
use crate::scalar::{enc, is_scalar, sc, group_order};
use crate::group::{ristretto_valid, schnorr_holds, spec_basepoint_mul, encodes};
use crate::net::protocol::NodeId;

verus! {

broadcast use crate::scalar::lemma_enc, vstd::std_specs::hash::group_hash_axioms;

/// Maximum number of nullifiers waiting for a block.
pub const MAX_PENDING_NULLIFIERS: usize = 100_000;

/// The concatenation of a list of 32-byte strings.
pub open spec fn flatten32(s: Seq<[u8; 32]>) -> Seq<u8>
    decreases s.len(),
{
    if s.len() == 0 {
        Seq::empty()
    } else {
        flatten32(s.drop_last()) + s.last()@
    }
}

/// The bytes hashed into a block's hash.
pub open spec fn block_hash_input(height: u64, leader: NodeId, nullifiers: Seq<[u8; 32]>, prev_hash: [u8; 32]) -> Seq<u8> {
    "specter-block:".spec_bytes() + vstd::bytes::spec_u64_to_le_bytes(height)
        + vstd::bytes::spec_u64_to_le_bytes(leader) + prev_hash@ + flatten32(nullifiers)
}

/// A block of nullifiers to be committed.
#[derive(Clone, Debug)]
pub struct NullifierBlock {
    pub height: u64,
    pub leader: NodeId,
    pub nullifiers: Vec<[u8; 32]>,
    /// Hash of the previous block (chain linking for fork detection).
    pub prev_hash: [u8; 32],
    pub hash: [u8; 32],
}

/// Whether a block's hash is the hash of its contents.
pub open spec fn block_hash_ok(b: NullifierBlock) -> bool {
    b.hash@ == spec_sha256(block_hash_input(b.height, b.leader, b.nullifiers@, b.prev_hash))
}

fn compute_hash(height: u64, leader: NodeId, nullifiers: &Vec<[u8; 32]>, prev_hash: &[u8; 32]) -> (h: [u8; 32])
    ensures
        h@ == spec_sha256(block_hash_input(height, leader, nullifiers@, *prev_hash)),
{
    let mut buf: Vec<u8> = Vec::new();
    crate::bytes::append_bytes(&mut buf, "specter-block:".as_bytes());
    let hb = vstd::bytes::u64_to_le_bytes(height);
    crate::bytes::append_bytes(&mut buf, hb.as_slice());
    let lb = vstd::bytes::u64_to_le_bytes(leader);
    crate::bytes::append_bytes(&mut buf, lb.as_slice());
    crate::bytes::append_bytes(&mut buf, prev_hash);
    let ghost prefix = buf@;
    let mut i: usize = 0;
    while i < nullifiers.len()
        invariant
            0 <= i <= nullifiers@.len(),
            buf@ == prefix + flatten32(nullifiers@.take(i as int)),
        decreases nullifiers@.len() - i,
    {
        crate::bytes::append_bytes(&mut buf, &nullifiers[i]);
        i = i + 1;
        assert(nullifiers@.take(i as int).drop_last() =~= nullifiers@.take(i - 1));
    }
    assert(nullifiers@.take(nullifiers@.len() as int) =~= nullifiers@);
    crate::hashing::sha256(buf.as_slice())
}

impl NullifierBlock {
    /// A block whose hash is computed from its contents.
    pub fn new(height: u64, leader: NodeId, nullifiers: Vec<[u8; 32]>, prev_hash: [u8; 32]) -> (b: Self)
        ensures
            b.height == height,
            b.leader == leader,
            b.nullifiers@ == nullifiers@,
            b.prev_hash == prev_hash,
            block_hash_ok(b),
    {
        let hash = compute_hash(height, leader, &nullifiers, &prev_hash);
        NullifierBlock { height, leader, nullifiers, prev_hash, hash }
    }

    /// A copy of the block.
    pub fn duplicate(&self) -> (b: Self)
        ensures
            b.height == self.height,
            b.leader == self.leader,
            b.nullifiers@ == self.nullifiers@,
            b.prev_hash == self.prev_hash,
            b.hash == self.hash,
    {
        NullifierBlock {
            height: self.height,
            leader: self.leader,
            nullifiers: crate::bytes::copy_vec32(&self.nullifiers),
            prev_hash: self.prev_hash,
            hash: self.hash,
        }
    }
}

/// A Schnorr signature authenticating a vote.
#[derive(Clone, Copy, Debug)]
pub struct VoteSignature {
    pub r: [u8; 32],
    pub s: [u8; 32],
}

/// An authenticated vote on a proposed block.
#[derive(Clone, Copy, Debug)]
pub struct Vote {
    pub voter: NodeId,
    pub block_height: u64,
    pub block_hash: [u8; 32],
    pub approve: bool,
    pub signature: VoteSignature,
}

/// The signed content of a vote.
pub open spec fn spec_vote_message(voter: NodeId, height: u64, hash: [u8; 32], approve: bool, view: u64) -> Seq<u8> {
    vstd::bytes::spec_u64_to_le_bytes(voter) + vstd::bytes::spec_u64_to_le_bytes(height) + hash@
        + seq![if approve { 1u8 } else { 0u8 }] + vstd::bytes::spec_u64_to_le_bytes(view)
}

/// The Schnorr challenge of a vote signature.
pub open spec fn spec_vote_challenge(r: Seq<u8>, pk: Seq<u8>, msg: Seq<u8>) -> Seq<u8> {
    enc(le_nat(spec_sha512("specter-vote-challenge:".spec_bytes() + r + pk + msg)) as int)
}

/// Whether a vote carries a valid signature by `pk` for view `view`.
pub open spec fn vote_signature_valid(v: Vote, pk: [u8; 32], view: u64) -> bool {
    &&& ristretto_valid(pk@)
    &&& ristretto_valid(v.signature.r@)
    &&& is_scalar(v.signature.s)
    &&& schnorr_holds(v.signature.r@, v.signature.s@,
            spec_vote_challenge(v.signature.r@, pk@, spec_vote_message(v.voter, v.block_height, v.block_hash, v.approve, view)), pk@)
}

/// The signed content of a vote: voter, height, block hash, approval and
/// view (which prevents replay across views).
pub fn vote_message(voter: NodeId, height: u64, hash: &[u8; 32], approve: bool, view: u64) -> (m: Vec<u8>)
    ensures
        m@ == spec_vote_message(voter, height, *hash, approve, view),
{
    let mut msg: Vec<u8> = Vec::new();
    let vb = vstd::bytes::u64_to_le_bytes(voter);
    crate::bytes::append_bytes(&mut msg, vb.as_slice());
    let hb = vstd::bytes::u64_to_le_bytes(height);
    crate::bytes::append_bytes(&mut msg, hb.as_slice());
    crate::bytes::append_bytes(&mut msg, hash);
    msg.push(if approve { 1 } else { 0 });
    let wb = vstd::bytes::u64_to_le_bytes(view);
    crate::bytes::append_bytes(&mut msg, wb.as_slice());
    assert(msg@ =~= spec_vote_message(voter, height, *hash, approve, view));
    msg
}

fn vote_challenge(r: &[u8; 32], pk: &[u8; 32], msg: &[u8]) -> (e: [u8; 32])
    ensures
        is_scalar(e),
        e@ == spec_vote_challenge(r@, pk@, msg@),
{
    let mut buf: Vec<u8> = Vec::new();
    crate::bytes::append_bytes(&mut buf, "specter-vote-challenge:".as_bytes());
    crate::bytes::append_bytes(&mut buf, r);
    crate::bytes::append_bytes(&mut buf, pk);
    crate::bytes::append_bytes(&mut buf, msg);
    let h = crate::hashing::sha512(buf.as_slice());
    crate::group::scalar_from_digest(&h)
}

/// A validator's keypair for signing votes.
pub struct ValidatorKey {
    pub node_id: NodeId,
    pub public_key: [u8; 32],
    secret_key: [u8; 32],
}

impl ValidatorKey {
    pub closed spec fn id(&self) -> NodeId {
        self.node_id
    }

    pub closed spec fn pk(&self) -> [u8; 32] {
        self.public_key
    }

    pub closed spec fn sk(&self) -> [u8; 32] {
        self.secret_key
    }

    /// The key pair's invariant: a canonical secret and `pk = x·B`.
    pub closed spec fn wf(&self) -> bool {
        is_scalar(self.secret_key) && self.public_key@ == spec_basepoint_mul(self.secret_key@)
            && ristretto_valid(self.public_key@) && encodes(self.public_key@, sc(self.secret_key) as int)
    }

    /// Generate a random validator key pair.
    pub fn generate(node_id: NodeId) -> (k: Self)
        ensures
            k.wf(),
            k.id() == node_id,
    {
        let secret_key = crate::group::random_scalar();
        let public_key = crate::group::basepoint_mul(secret_key);
        ValidatorKey { node_id, public_key, secret_key }
    }

    /// Sign a vote for view 0.
    pub fn sign_vote(&self, block_height: u64, block_hash: &[u8; 32], approve: bool) -> (v: Vote)
        requires
            self.wf(),
        ensures
            v.voter == self.id(),
            v.block_height == block_height,
            v.block_hash == *block_hash,
            v.approve == approve,
            ristretto_valid(v.signature.r@),
            is_scalar(v.signature.s),
            exists|k: [u8; 32]| is_scalar(k) && v.signature.r@ == #[trigger] spec_basepoint_mul(k@)
                && v.signature.s@ == enc(sc(k) + ((le_nat(spec_vote_challenge(v.signature.r@, self.pk()@,
                    spec_vote_message(v.voter, block_height, *block_hash, approve, 0))) * sc(self.sk())) % group_order()) as int),
            vote_signature_valid(v, self.pk(), 0),
    {
        self.sign_vote_with_view(block_height, block_hash, approve, 0)
    }

    /// Sign a vote for an explicit view.
    pub fn sign_vote_with_view(&self, block_height: u64, block_hash: &[u8; 32], approve: bool, view: u64) -> (v: Vote)
        requires
            self.wf(),
        ensures
            v.voter == self.id(),
            v.block_height == block_height,
            v.block_hash == *block_hash,
            v.approve == approve,
            ristretto_valid(v.signature.r@),
            is_scalar(v.signature.s),
            exists|k: [u8; 32]| is_scalar(k) && v.signature.r@ == #[trigger] spec_basepoint_mul(k@)
                && v.signature.s@ == enc(sc(k) + ((le_nat(spec_vote_challenge(v.signature.r@, self.pk()@,
                    spec_vote_message(v.voter, block_height, *block_hash, approve, view))) * sc(self.sk())) % group_order()) as int),
            vote_signature_valid(v, self.pk(), view),
    {
        let msg = vote_message(self.node_id, block_height, block_hash, approve, view);
        let k = crate::group::random_scalar();
        let r = crate::group::basepoint_mul(k);
        let e = vote_challenge(&r, &self.public_key, msg.as_slice());
        let s = crate::group::schnorr_response(k, e, self.secret_key);
        let v = Vote { voter: self.node_id, block_height, block_hash: *block_hash, approve, signature: VoteSignature { r, s } };
        assert(is_scalar(k) && v.signature.r@ == spec_basepoint_mul(k@));
        proof {
            crate::group::lemma_schnorr_response_holds(r@, s@, e@, self.public_key@, sc(k) as int, sc(self.secret_key) as int);
        }
        v
    }
}

/// Verify a vote's signature for view 0.
pub fn verify_vote_signature(vote: &Vote, voter_pubkey: &[u8; 32]) -> (ok: bool)
    ensures
        ok == vote_signature_valid(*vote, *voter_pubkey, 0),
{
    verify_vote_signature_with_view(vote, voter_pubkey, 0)
}

/// Verify a vote's signature for an explicit view.
pub fn verify_vote_signature_with_view(vote: &Vote, voter_pubkey: &[u8; 32], view: u64) -> (ok: bool)
    ensures
        ok == vote_signature_valid(*vote, *voter_pubkey, view),
{
    if !crate::group::point_is_valid(voter_pubkey) {
        return false;
    }
    if !crate::group::point_is_valid(&vote.signature.r) {
        return false;
    }
    let s = match crate::group::scalar_from_canonical(vote.signature.s) {
        Some(s) => s,
        None => return false,
    };
    let msg = vote_message(vote.voter, vote.block_height, &vote.block_hash, vote.approve, view);
    let e = vote_challenge(&vote.signature.r, voter_pubkey, msg.as_slice());
    crate::group::schnorr_check(vote.signature.r, s, e, *voter_pubkey)
}

/// Errors of consensus operations.
#[allow(inconsistent_fields)]
#[derive(Debug, PartialEq, Eq, Clone, Copy)]
pub enum ConsensusError {
    NotLeader { leader: NodeId, self_id: NodeId },
    InsufficientValidators { min: usize, got: usize },
    UnknownVoter(NodeId),
    InvalidVoteSignature(NodeId),
    DuplicateVote(NodeId),
    Equivocation { leader: NodeId, height: u64 },
    WrongHeight { expected: u64, got: u64 },
    InvalidBlockHash,
}

/// The key under which a proposal is remembered: its height and leader.
#[derive(Clone, Copy, Debug, PartialEq, Eq)]
pub struct ProposalKey {
    pub height: u64,
    pub leader: NodeId,
}

impl TableKey for ProposalKey {
    fn same_key(&self, other: &Self) -> (r: bool) {
        self.height == other.height && self.leader == other.leader
    }
}

/// The quorum for `n` validators.
pub open spec fn spec_quorum(n: nat) -> nat {
    if n < 4 { n } else { (2 * ((n - 1) as nat / 3) + 1) as nat }
}

/// The position of the leader for a height and view among `n` validators.
pub open spec fn leader_index(height: u64, view: u64, n: nat) -> nat
    recommends
        n > 0,
{
    (((height as nat) % n) + ((view as nat) % n)) % n
}

/// Number of approving votes in a list.
pub open spec fn count_approvals(votes: Seq<Vote>) -> nat
    decreases votes.len(),
{
    if votes.len() == 0 {
        0
    } else {
        count_approvals(votes.drop_last()) + if votes.last().approve { 1nat } else { 0nat }
    }
}

/// Whether a voter has a vote in a list.
pub open spec fn has_voted(votes: Seq<Vote>, voter: NodeId) -> bool {
    exists|i: int| 0 <= i < votes.len() && votes[i].voter == voter
}

/// The abstract state of a consensus participant.
pub struct ConsensusView {
    pub node_id: NodeId,
    pub validators: Seq<NodeId>,
    pub keys: Map<NodeId, [u8; 32]>,
    pub total_validators: usize,
    pub max_faults: usize,
    pub quorum_size: usize,
    pub height: u64,
    pub view: u64,
    pub committed_blocks: Seq<NullifierBlock>,
    pub committed: Set<[u8; 32]>,
    pub pending: Seq<[u8; 32]>,
    pub votes: Map<[u8; 32], Seq<Vote>>,
    pub proposals: Map<ProposalKey, [u8; 32]>,
}

impl ConsensusView {
    pub open spec fn leader(self) -> NodeId {
        self.validators[leader_index(self.height, self.view, self.validators.len()) as int]
    }

    /// Outcome of receiving a proposal for `(height, leader)` with `hash`.
    pub open spec fn on_proposal(self, height: u64, leader: NodeId, hash: [u8; 32]) -> (Result<(), ConsensusError>, ConsensusView) {
        let key = ProposalKey { height, leader };
        if self.proposals.contains_key(key) {
            if self.proposals[key] != hash {
                (Err(ConsensusError::Equivocation { leader, height }), self)
            } else {
                (Ok(()), self)
            }
        } else {
            (Ok(()), ConsensusView { proposals: self.proposals.insert(key, hash), ..self })
        }
    }

    /// The votes cast on a block hash so far.
    pub open spec fn votes_for(self, hash: [u8; 32]) -> Seq<Vote> {
        if self.votes.contains_key(hash) { self.votes[hash] } else { Seq::empty() }
    }
}

/// Whether a voter has a vote in a list.
fn contains_voter(list: &Vec<Vote>, voter: NodeId) -> (b: bool)
    ensures
        b == has_voted(list@, voter),
{
    let mut k: usize = 0;
    while k < list.len()
        invariant
            0 <= k <= list@.len(),
            forall|m: int| 0 <= m < k ==> list@[m].voter != voter,
        decreases list@.len() - k,
    {
        if list[k].voter == voter {
            return true;
        }
        k = k + 1;
    }
    false
}

/// Number of approving votes in a list.
fn approval_count(list: &Vec<Vote>) -> (n: usize)
    ensures
        n == count_approvals(list@),
{
    let mut n: usize = 0;
    let mut k: usize = 0;
    while k < list.len()
        invariant
            0 <= k <= list@.len(),
            n == count_approvals(list@.take(k as int)),
            n <= k,
        decreases list@.len() - k,
    {
        assert(list@.take(k + 1).drop_last() =~= list@.take(k as int));
        if list[k].approve {
            n = n + 1;
        }
        k = k + 1;
    }
    assert(list@.take(list@.len() as int) =~= list@);
    n
}

/// Adds every listed key to a set.
fn insert_all(set: &mut Table<[u8; 32], ()>, keys: &Vec<[u8; 32]>)
    requires
        old(set).wf(),
    ensures
        final(set).wf(),
        final(set)@.dom() == old(set)@.dom() + keys@.to_set(),
{
    let mut i: usize = 0;
    while i < keys.len()
        invariant
            0 <= i <= keys@.len(),
            set.wf(),
            set@.dom() == old(set)@.dom() + keys@.take(i as int).to_set(),
        decreases keys@.len() - i,
    {
        set.insert(keys[i], ());
        proof {
            let t = keys@.take(i + 1);
            assert(t =~= keys@.take(i as int).push(keys@[i as int]));
            keys@.take(i as int).lemma_push_to_set_commute(keys@[i as int]);
            assert(set@.dom() =~= old(set)@.dom() + t.to_set());
        }
        i = i + 1;
    }
    assert(keys@.take(keys@.len() as int) =~= keys@);
}

/// When `n = 3f + 1` validators run with `f ≥ 1`, any two quorums share
/// at least `f + 1` validators, so at least one honest validator; with
/// fewer than four validators any two quorums coincide.
pub proof fn law_quorums_intersect(n: nat)
    requires
        n >= 1,
        n < 4 || (n - 1) % 3 == 0,
    ensures
        n >= 4 ==> 2 * spec_quorum(n) >= n + (n - 1) as nat / 3 + 1,
        n < 4 ==> spec_quorum(n) == n,
        spec_quorum(n) <= n,
{
    if n >= 4 {
        let f = (n - 1) as nat / 3;
        vstd::arithmetic::div_mod::lemma_fundamental_div_mod((n - 1) as int, 3);
        assert(3 * f == n - 1);
    } else {
    }
}

/// A view change hands leadership to the next validator in order.
pub proof fn law_view_change_rotates_leader(height: u64, view: u64, n: nat)
    requires
        n >= 1,
        view < u64::MAX,
    ensures
        leader_index(height, view, n) < n,
        leader_index(height, (view + 1) as u64, n) == (leader_index(height, view, n) + 1) % n,
{
    let a = (height as nat) % n;
    let b = (view as nat) % n;
    let ni = n as int;
    if n == 1 {
        assert(leader_index(height, (view + 1) as u64, n) == 0);
        assert((leader_index(height, view, n) + 1) % n == 0);
    } else {
        vstd::arithmetic::div_mod::lemma_small_mod(1, n);
        vstd::arithmetic::div_mod::lemma_add_mod_noop(view as int, 1, ni);
        vstd::arithmetic::div_mod::lemma_add_mod_noop(a as int, b as int + 1, ni);
        vstd::arithmetic::div_mod::lemma_small_mod(a, n);
        vstd::arithmetic::div_mod::lemma_add_mod_noop(a as int + b as int, 1, ni);
        assert(((view + 1) as nat) % n == (b + 1) % n);
        vstd::arithmetic::div_mod::lemma_mod_bound((b + 1) as int, ni);
        vstd::arithmetic::div_mod::lemma_add_mod_noop(a as int, (b + 1) as int, ni);
        vstd::arithmetic::div_mod::lemma_small_mod(((b + 1) % n) as nat, n);
        vstd::arithmetic::div_mod::lemma_small_mod(((a + b) % n) as nat, n);
    }
}

/// Each voter has at most one vote per block hash.
pub open spec fn one_vote_per_voter(votes: Map<[u8; 32], Seq<Vote>>) -> bool {
    forall|h: [u8; 32], i: int, j: int|
        votes.contains_key(h) && 0 <= i < votes[h].len() && 0 <= j < votes[h].len() && i != j
            ==> (#[trigger] votes[h][i]).voter != (#[trigger] votes[h][j]).voter
}

/// Accepting a vote from a voter who has not voted on the block keeps one
/// vote per voter.
pub proof fn law_vote_accepted_once(v: ConsensusView, vote: Vote)
    requires
        one_vote_per_voter(v.votes),
        !has_voted(v.votes_for(vote.block_hash), vote.voter),
    ensures
        one_vote_per_voter(v.votes.insert(vote.block_hash, v.votes_for(vote.block_hash).push(vote))),
{
    let w = v.votes.insert(vote.block_hash, v.votes_for(vote.block_hash).push(vote));
    assert forall|h: [u8; 32], i: int, j: int|
        w.contains_key(h) && 0 <= i < w[h].len() && 0 <= j < w[h].len() && i != j
            implies (#[trigger] w[h][i]).voter != (#[trigger] w[h][j]).voter by {
        if h == vote.block_hash {
            let old_list = v.votes_for(h);
            if i < old_list.len() && j < old_list.len() {
                assert(w[h][i] == old_list[i] && w[h][j] == old_list[j]);
            } else if i == old_list.len() {
                assert(w[h][j] == old_list[j]);
            } else {
                assert(w[h][i] == old_list[i]);
            }
        }
    }
}

/// Once a leader's proposal at a height is recorded, a different proposal
/// by that leader at that height is reported as equivocation and changes
/// nothing, while the same proposal is accepted again.
pub proof fn law_equivocation_detected(v: ConsensusView, height: u64, leader: NodeId, h1: [u8; 32], h2: [u8; 32])
    requires
        v.on_proposal(height, leader, h1).0 is Ok,
    ensures
        h1 != h2 ==> v.on_proposal(height, leader, h1).1.on_proposal(height, leader, h2)
            == (Err::<(), ConsensusError>(ConsensusError::Equivocation { leader, height }), v.on_proposal(height, leader, h1).1),
        v.on_proposal(height, leader, h1).1.on_proposal(height, leader, h1).0 is Ok,
{
}

/// The consensus state machine of one validator.
pub struct ConsensusState {
    pub node_id: NodeId,
    pub total_validators: usize,
    pub max_faults: usize,
    pub quorum_size: usize,
    pub validators: Vec<NodeId>,
    /// Validator public keys for vote verification.
    pub validator_keys: HashMap<NodeId, [u8; 32]>,
    pub current_height: u64,
    pub committed_blocks: Vec<NullifierBlock>,
    committed_nullifiers: Table<[u8; 32], ()>,
    pending_nullifiers: Table<[u8; 32], ()>,
    votes: Table<[u8; 32], Vec<Vote>>,
    pub view: u64,
    seen_proposals: Table<ProposalKey, [u8; 32]>,
}

impl ConsensusState {
    pub closed spec fn view(&self) -> ConsensusView {
        ConsensusView {
            node_id: self.node_id,
            validators: self.validators@,
            keys: self.validator_keys@,
            total_validators: self.total_validators,
            max_faults: self.max_faults,
            quorum_size: self.quorum_size,
            height: self.current_height,
            view: self.view,
            committed_blocks: self.committed_blocks@,
            committed: self.committed_nullifiers@.dom(),
            pending: self.pending_nullifiers.entries().map_values(|e: ([u8; 32], ())| e.0),
            votes: self.votes@.map_values(|v: Vec<Vote>| v@),
            proposals: self.seen_proposals@,
        }
    }

    /// The state's invariant.
    pub closed spec fn wf(&self) -> bool {
        &&& self.committed_nullifiers.wf()
        &&& self.pending_nullifiers.wf()
        &&& self.votes.wf()
        &&& self.seen_proposals.wf()
        &&& self.validators@.len() > 0
        &&& self.total_validators == self.validators@.len()
        &&& self.quorum_size == spec_quorum(self.total_validators as nat)
        &&& self.max_faults == (self.total_validators - 1) / 3
    }

    /// A participant with the given validators; at least one is needed.
    pub fn new(node_id: NodeId, validators: Vec<NodeId>, validator_keys: HashMap<NodeId, [u8; 32]>) -> (r: Result<Self, ConsensusError>)
        ensures
            validators@.len() == 0 <==> r == Err::<Self, ConsensusError>(ConsensusError::InsufficientValidators { min: 1, got: 0 }),
            validators@.len() > 0 <==> r.is_ok(),
            r.is_ok() ==> {
                let s = r.unwrap();
                &&& s.wf()
                &&& s@.node_id == node_id
                &&& s@.validators == validators@
                &&& s@.keys == validator_keys@
                &&& s@.total_validators == validators@.len()
                &&& s@.max_faults == (validators@.len() - 1) / 3
                &&& s@.quorum_size == spec_quorum(validators@.len() as nat)
                &&& s@.height == 0 && s@.view == 0
                &&& s@.committed_blocks.len() == 0
                &&& s@.committed == Set::<[u8; 32]>::empty()
                &&& s@.pending.len() == 0
                &&& s@.votes == Map::<[u8; 32], Seq<Vote>>::empty()
                &&& s@.proposals == Map::<ProposalKey, [u8; 32]>::empty()
            },
    {
        let n = validators.len();
        if n < 1 {
            return Err(ConsensusError::InsufficientValidators { min: 1, got: 0 });
        }
        let max_faults = (n - 1) / 3;
        let quorum_size = if n < 4 { n } else { 2 * max_faults + 1 };
        let s = ConsensusState {
            node_id,
            total_validators: n,
            max_faults,
            quorum_size,
            validators,
            validator_keys,
            current_height: 0,
            committed_blocks: Vec::new(),
            committed_nullifiers: Table::new(),
            pending_nullifiers: Table::new(),
            votes: Table::new(),
            view: 0,
            seen_proposals: Table::new(),
        };
        assert(s@.committed =~= Set::<[u8; 32]>::empty());
        assert(s@.votes =~= Map::<[u8; 32], Seq<Vote>>::empty());
        Ok(s)
    }

    /// The leader for the current height and view.
    pub fn current_leader(&self) -> (l: NodeId)
        requires
            self.wf(),
        ensures
            l == self@.leader(),
    {
        let n = self.validators.len() as u64;
        let a = self.current_height % n;
        let b = self.view % n;
        let idx = ((a as u128 + b as u128) % (n as u128)) as u64;
        self.validators[idx as usize]
    }

    /// Queue a nullifier for the next block, unless it is committed or the
    /// queue is full.
    pub fn submit_nullifier(&mut self, nullifier: [u8; 32])
        requires
            old(self).wf(),
        ensures
            final(self).wf(),
            (old(self)@.pending.len() >= MAX_PENDING_NULLIFIERS || old(self)@.committed.contains(nullifier)
                || old(self)@.pending.contains(nullifier)) ==> final(self)@ == old(self)@,
            !(old(self)@.pending.len() >= MAX_PENDING_NULLIFIERS || old(self)@.committed.contains(nullifier)
                || old(self)@.pending.contains(nullifier)) ==> final(self)@ == (ConsensusView { pending: old(self)@.pending.push(nullifier), ..old(self)@ }),
    {
        proof {
            self.lemma_pending_contains(nullifier);
        }
        if self.pending_nullifiers.len() >= MAX_PENDING_NULLIFIERS {
            return;
        }
        if self.pending_nullifiers.contains(&nullifier) {
            return;
        }
        if !self.committed_nullifiers.contains(&nullifier) {
            self.pending_nullifiers.insert(nullifier, ());
            proof {
                assert(self@.pending =~= old(self)@.pending.push(nullifier));
            }
        }
    }

    proof fn lemma_pending_contains(&self, n: [u8; 32])
        requires
            self.pending_nullifiers.wf(),
        ensures
            self@.pending.contains(n) <==> self.pending_nullifiers@.contains_key(n),
            self@.pending.len() == self.pending_nullifiers.entries().len(),
    {
        crate::table::lemma_map_of_dom(self.pending_nullifiers.entries(), n);
        if self@.pending.contains(n) {
            let i = choose|i: int| 0 <= i < self@.pending.len() && self@.pending[i] == n;
            assert(crate::table::has_key_at(self.pending_nullifiers.entries(), n, i));
        }
        if self.pending_nullifiers@.contains_key(n) {
            let i = choose|i: int| crate::table::has_key_at(self.pending_nullifiers.entries(), n, i);
            assert(self@.pending[i] == n);
        }
    }

    /// Propose a block of all pending nullifiers (leader only), chained to
    /// the last committed block.
    pub fn propose_block(&mut self) -> (r: Result<NullifierBlock, ConsensusError>)
        requires
            old(self).wf(),
        ensures
            final(self).wf(),
            old(self)@.leader() != old(self)@.node_id ==> r == Err::<NullifierBlock, ConsensusError>(
                ConsensusError::NotLeader { leader: old(self)@.leader(), self_id: old(self)@.node_id }) && final(self)@ == old(self)@,
            old(self)@.leader() == old(self)@.node_id ==> r.is_ok() && {
                let b = r.unwrap();
                &&& b.height == old(self)@.height
                &&& b.leader == old(self)@.node_id
                &&& b.nullifiers@ == old(self)@.pending
                &&& b.prev_hash == (if old(self)@.committed_blocks.len() == 0 { [0u8; 32usize] } else { old(self)@.committed_blocks.last().hash })
                &&& block_hash_ok(b)
                &&& final(self)@ == (ConsensusView { pending: Seq::empty(), ..old(self)@ })
            },
    {
        let leader = self.current_leader();
        if leader != self.node_id {
            return Err(ConsensusError::NotLeader { leader, self_id: self.node_id });
        }
        let mut nullifiers: Vec<[u8; 32]> = Vec::new();
        let len = self.pending_nullifiers.len();
        let mut i: usize = 0;
        while i < len
            invariant
                0 <= i <= len,
                len == self.pending_nullifiers.entries().len(),
                nullifiers@ == self@.pending.take(i as int),
            decreases len - i,
        {
            nullifiers.push(self.pending_nullifiers.key_at(i));
            i = i + 1;
            assert(nullifiers@ =~= self@.pending.take(i as int));
        }
        assert(self@.pending.take(len as int) =~= self@.pending);
        self.pending_nullifiers.clear();
        let prev_hash = if self.committed_blocks.len() == 0 {
            [0u8; 32]
        } else {
            self.committed_blocks[self.committed_blocks.len() - 1].hash
        };
        let b = NullifierBlock::new(self.current_height, self.node_id, nullifiers, prev_hash);
        proof {
            assert(self@.pending =~= Seq::<[u8; 32]>::empty());
        }
        Ok(b)
    }

    /// Record a proposal; a second, different proposal by the same leader
    /// at the same height is equivocation.
    pub fn receive_proposal(&mut self, block: &NullifierBlock) -> (r: Result<(), ConsensusError>)
        requires
            old(self).wf(),
        ensures
            final(self).wf(),
            (r, final(self)@) == old(self)@.on_proposal(block.height, block.leader, block.hash),
    {
        broadcast use vstd::array::axiom_array_ext_equal;
        let key = ProposalKey { height: block.height, leader: block.leader };
        match self.seen_proposals.get(&key) {
            Some(prev) => {
                if !crate::bytes::bytes32_eq(prev, &block.hash) {
                    return Err(ConsensusError::Equivocation { leader: block.leader, height: block.height });
                }
                assert(*prev =~= block.hash);
                Ok(())
            },
            None => {
                self.seen_proposals.insert(key, block.hash);
                Ok(())
            },
        }
    }

    /// Accept an authenticated vote: the voter must be a known validator,
    /// vote at the current height, sign correctly, and not have voted on
    /// the block already.
    pub fn receive_vote(&mut self, vote: Vote) -> (r: Result<(), ConsensusError>)
        requires
            old(self).wf(),
        ensures
            final(self).wf(),
            r.is_err() ==> final(self)@ == old(self)@,
            !old(self)@.keys.contains_key(vote.voter) ==> r == Err::<(), ConsensusError>(ConsensusError::UnknownVoter(vote.voter)),
            old(self)@.keys.contains_key(vote.voter) && vote.block_height != old(self)@.height ==>
                r == Err::<(), ConsensusError>(ConsensusError::WrongHeight { expected: old(self)@.height, got: vote.block_height }),
            old(self)@.keys.contains_key(vote.voter) && vote.block_height == old(self)@.height
                && !vote_signature_valid(vote, old(self)@.keys[vote.voter], 0) ==>
                r == Err::<(), ConsensusError>(ConsensusError::InvalidVoteSignature(vote.voter)),
            old(self)@.keys.contains_key(vote.voter) && vote.block_height == old(self)@.height
                && vote_signature_valid(vote, old(self)@.keys[vote.voter], 0) ==> {
                if has_voted(old(self)@.votes_for(vote.block_hash), vote.voter) {
                    r == Err::<(), ConsensusError>(ConsensusError::DuplicateVote(vote.voter))
                } else {
                    r == Ok::<(), ConsensusError>(()) && final(self)@ == (ConsensusView {
                        votes: old(self)@.votes.insert(vote.block_hash, old(self)@.votes_for(vote.block_hash).push(vote)),
                        ..old(self)@
                    })
                }
            },
    {
        let voter_pk = match self.validator_keys.get(&vote.voter) {
            Some(pk) => *pk,
            None => return Err(ConsensusError::UnknownVoter(vote.voter)),
        };
        if vote.block_height != self.current_height {
            return Err(ConsensusError::WrongHeight { expected: self.current_height, got: vote.block_height });
        }
        if !verify_vote_signature(&vote, &voter_pk) {
            return Err(ConsensusError::InvalidVoteSignature(vote.voter));
        }
        match self.votes.find(&vote.block_hash) {
            Some(j) => {
                if contains_voter(self.votes.value_at(j), vote.voter) {
                    return Err(ConsensusError::DuplicateVote(vote.voter));
                }
                let mut list = self.votes.replace_at(j, Vec::new());
                list.push(vote);
                self.votes.replace_at(j, list);
                proof {
                    assert(self@.votes =~= old(self)@.votes.insert(vote.block_hash, old(self)@.votes_for(vote.block_hash).push(vote)));
                }
            },
            None => {
                let mut list: Vec<Vote> = Vec::new();
                list.push(vote);
                self.votes.insert(vote.block_hash, list);
                proof {
                    assert(old(self)@.votes_for(vote.block_hash) =~= Seq::<Vote>::empty());
                    assert(self@.votes =~= old(self)@.votes.insert(vote.block_hash, old(self)@.votes_for(vote.block_hash).push(vote)));
                }
            },
        }
        Ok(())
    }

    /// Commit a block if its hash is right and a quorum has approved it.
    pub fn try_commit(&mut self, block: &NullifierBlock) -> (r: Result<bool, ConsensusError>)
        requires
            old(self).wf(),
            old(self)@.height < u64::MAX,
        ensures
            final(self).wf(),
            !block_hash_ok(*block) ==> r == Err::<bool, ConsensusError>(ConsensusError::InvalidBlockHash) && final(self)@ == old(self)@,
            block_hash_ok(*block) && count_approvals(old(self)@.votes_for(block.hash)) < old(self)@.quorum_size ==>
                r == Ok::<bool, ConsensusError>(false) && final(self)@ == old(self)@,
            block_hash_ok(*block) && count_approvals(old(self)@.votes_for(block.hash)) >= old(self)@.quorum_size ==>
                r == Ok::<bool, ConsensusError>(true) && final(self)@ == (ConsensusView {
                    committed: old(self)@.committed + block.nullifiers@.to_set(),
                    committed_blocks: old(self)@.committed_blocks.push(final(self)@.committed_blocks.last()),
                    height: (old(self)@.height + 1) as u64,
                    votes: old(self)@.votes.remove(block.hash),
                    ..old(self)@
                })
                && final(self)@.committed_blocks.last().hash == block.hash
                && final(self)@.committed_blocks.last().nullifiers@ == block.nullifiers@
                && final(self)@.committed_blocks.last().height == block.height,
    {
        broadcast use vstd::array::axiom_array_ext_equal;
        let computed = compute_hash(block.height, block.leader, &block.nullifiers, &block.prev_hash);
        if !crate::bytes::bytes32_eq(&computed, &block.hash) {
            return Err(ConsensusError::InvalidBlockHash);
        }
        let approvals: usize = match self.votes.find(&block.hash) {
            Some(j) => approval_count(self.votes.value_at(j)),
            None => 0,
        };
        if approvals >= self.quorum_size {
            insert_all(&mut self.committed_nullifiers, &block.nullifiers);
            self.committed_blocks.push(block.duplicate());
            self.current_height = self.current_height + 1;
            self.votes.remove(&block.hash);
            proof {
                assert(self@.votes =~= old(self)@.votes.remove(block.hash));
            }
            Ok(true)
        } else {
            Ok(false)
        }
    }

    /// Whether a nullifier has been committed.
    pub fn is_committed(&self, nullifier: &[u8; 32]) -> (b: bool)
        requires
            self.wf(),
        ensures
            b == self@.committed.contains(*nullifier),
    {
        self.committed_nullifiers.contains(nullifier)
    }

    /// Number of committed blocks.
    pub fn block_count(&self) -> (n: usize)
        ensures
            n == self@.committed_blocks.len(),
    {
        self.committed_blocks.len()
    }

    /// Number of committed nullifiers.
    pub fn nullifier_count(&self) -> (n: usize)
        requires
            self.wf(),
        ensures
            n == self@.committed.len(),
    {
        self.committed_nullifiers.len()
    }

    /// Move to the next view (rotating the leader) and drop all votes.
    pub fn trigger_view_change(&mut self)
        requires
            old(self).wf(),
            old(self)@.view < u64::MAX,
        ensures
            final(self).wf(),
            final(self)@ == (ConsensusView { view: (old(self)@.view + 1) as u64, votes: Map::empty(), ..old(self)@ }),
    {
        self.view = self.view + 1;
        self.votes.clear();
        assert(self@.votes =~= Map::<[u8; 32], Seq<Vote>>::empty());
    }

    /// The current height.
    pub fn height(&self) -> (h: u64)
        ensures
            h == self@.height,
    {
        self.current_height
    }

    /// The current view.
    pub fn current_view(&self) -> (v: u64)
        ensures
            v == self@.view,
    {
        self.view
    }
}


/// The leader rotates with every block: at height `h` and view `v` it is
/// validator `(h + v) mod n`, so advancing the height by one in the same
/// view hands leadership to the next validator.
pub proof fn law_leader_rotates_each_block(height: u64, view: u64, n: nat)
    requires
        n > 0,
        height < u64::MAX,
    ensures
        leader_index(height, view, n) == (height as nat + view as nat) % n,
        leader_index((height + 1) as u64, view, n) == (leader_index(height, view, n) + 1) % n,
{
    let ni = n as int;
    vstd::arithmetic::div_mod::lemma_add_mod_noop(height as int, view as int, ni);
    vstd::arithmetic::div_mod::lemma_add_mod_noop(height as int + 1, view as int, ni);
    vstd::arithmetic::div_mod::lemma_add_mod_noop(height as int + view as int, 1, ni);
    vstd::arithmetic::div_mod::lemma_mod_twice(height as int + view as int, ni);
    if n == 1 {
        assert((height as nat + view as nat + 1) % n == 0);
    } else {
        vstd::arithmetic::div_mod::lemma_small_mod(1, n);
        vstd::arithmetic::div_mod::lemma_add_mod_noop((height as int + view as int) % ni, 1, ni);
    }
}

/// Only approving votes count toward the quorum: the count is the number
/// of votes with `approve` set; a rejecting vote leaves it unchanged and an
/// approving one raises it by one.
pub proof fn law_only_approvals_count(votes: Seq<Vote>, v: Vote)
    ensures
        count_approvals(votes) == votes.filter(|x: Vote| x.approve).len(),
        count_approvals(votes.push(v)) == count_approvals(votes) + if v.approve { 1nat } else { 0nat },
        (forall|i: int| 0 <= i < votes.len() ==> !(#[trigger] votes[i]).approve) ==> count_approvals(votes) == 0,
    decreases votes.len(),
{
    reveal(Seq::filter);
    assert(votes.push(v).drop_last() =~= votes);
    if votes.len() > 0 {
        law_only_approvals_count(votes.drop_last(), votes.last());
        if forall|i: int| 0 <= i < votes.len() ==> !(#[trigger] votes[i]).approve {
            assert forall|i: int| 0 <= i < votes.drop_last().len() implies !(#[trigger] votes.drop_last()[i]).approve by {
                assert(votes.drop_last()[i] == votes[i]);
            }
            assert(!votes[votes.len() - 1].approve);
        }
    }
}

} // verus!
