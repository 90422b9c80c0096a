//! Gossip of spent nullifiers, with Schnorr-signed broadcasts.
//!
//! Each node remembers the nullifiers it has seen and queues a broadcast
//! for each of its peers the first time it sees one. Received broadcasts
//! are checked against the sender's registered key before acceptance.

use vstd::prelude::*;
use vstd::string::*;
use std::collections::HashMap;
use crate::table::{Table, TableKey};
use crate::hashing::spec_sha512;
use crate::bytes::le_nat;
use crate::scalar::{enc, is_scalar, sc, group_order};
use crate::group::{encodes, ristretto_valid, schnorr_holds, spec_basepoint_mul};
use crate::net::protocol::{Message, NodeId};

verus! {

broadcast use crate::scalar::lemma_enc, vstd::std_specs::hash::group_hash_axioms;

/// Maximum outbound messages queued per peer.
pub const MAX_OUTBOX_PER_PEER: usize = 10_000;

/// Maximum number of nullifiers a node remembers.
pub const MAX_KNOWN_NULLIFIERS: usize = 1_000_000;

/// Errors of gossip operations.
#[derive(Debug, PartialEq, Eq, Clone, Copy)]
pub enum GossipError {
    UnknownSender(NodeId),
    InvalidSignature(NodeId),
    AtCapacity,
}

/// The bytes hashed into a broadcast's Schnorr challenge.
pub open spec fn broadcast_challenge_input(r: Seq<u8>, pk: Seq<u8>, nullifier: Seq<u8>, sender: NodeId) -> Seq<u8> {
    "specter-gossip-sig:".spec_bytes() + r + pk + nullifier + vstd::bytes::spec_u64_to_le_bytes(sender)
}

/// The challenge scalar of a broadcast signature.
pub open spec fn broadcast_challenge(r: Seq<u8>, pk: Seq<u8>, nullifier: Seq<u8>, sender: NodeId) -> Seq<u8> {
    enc(le_nat(spec_sha512(broadcast_challenge_input(r, pk, nullifier, sender))) as int)
}

/// Whether `(r, s)` is a valid signature by `pk` on a broadcast of
/// `nullifier` from `sender`.
pub open spec fn broadcast_signature_valid(nullifier: [u8; 32], sender: NodeId, r: [u8; 32], s: [u8; 32], pk: [u8; 32]) -> bool {
    &&& ristretto_valid(pk@)
    &&& ristretto_valid(r@)
    &&& is_scalar(s)
    &&& schnorr_holds(r@, s@, broadcast_challenge(r@, pk@, nullifier@, sender), pk@)
}

fn nullifier_sig_challenge(r: &[u8; 32], pk: &[u8; 32], nullifier: &[u8; 32], sender: NodeId) -> (e: [u8; 32])
    ensures
        is_scalar(e),
        e@ == broadcast_challenge(r@, pk@, nullifier@, sender),
{
    let mut buf: Vec<u8> = Vec::new();
    crate::bytes::append_bytes(&mut buf, "specter-gossip-sig:".as_bytes());
    crate::bytes::append_bytes(&mut buf, r);
    crate::bytes::append_bytes(&mut buf, pk);
    crate::bytes::append_bytes(&mut buf, nullifier);
    let sb = vstd::bytes::u64_to_le_bytes(sender);
    crate::bytes::append_bytes(&mut buf, sb.as_slice());
    let h = crate::hashing::sha512(buf.as_slice());
    crate::group::scalar_from_digest(&h)
}

/// Sign a nullifier broadcast with a Schnorr signature under a fresh
/// random nonce `k`: `R = k·B`, `s = k + e·x`.
pub fn sign_nullifier_broadcast(
    nullifier: &[u8; 32],
    sender: NodeId,
    secret_key: &[u8; 32],
    public_key: &[u8; 32],
) -> (sig: ([u8; 32], [u8; 32]))
    requires
        is_scalar(*secret_key),
    ensures
        ristretto_valid(sig.0@),
        exists|k: [u8; 32]| is_scalar(k) && sig.0@ == spec_basepoint_mul(k@)
            && sig.1@ == #[trigger] enc(sc(k) + ((le_nat(broadcast_challenge(sig.0@, public_key@, nullifier@, sender)) * sc(*secret_key)) % group_order()) as int),
        ristretto_valid(public_key@) && encodes(public_key@, sc(*secret_key) as int)
            ==> broadcast_signature_valid(*nullifier, sender, sig.0, sig.1, *public_key),
{
    let k = crate::group::random_scalar();
    let r = crate::group::basepoint_mul(k);
    let e = nullifier_sig_challenge(&r, public_key, nullifier, sender);
    let s = crate::group::schnorr_response(k, e, *secret_key);
    assert(is_scalar(k) && r@ == spec_basepoint_mul(k@)
        && s@ == enc(sc(k) + ((le_nat(broadcast_challenge(r@, public_key@, nullifier@, sender)) * sc(*secret_key)) % group_order()) as int));
    proof {
        if encodes(public_key@, sc(*secret_key) as int) {
            crate::group::lemma_schnorr_response_holds(r@, s@, e@, public_key@, sc(k) as int, sc(*secret_key) as int);
        }
    }
    (r, s)
}

/// Verify a nullifier broadcast signature.
pub fn verify_nullifier_broadcast(
    nullifier: &[u8; 32],
    sender: NodeId,
    signature_r: &[u8; 32],
    signature_s: &[u8; 32],
    public_key: &[u8; 32],
) -> (ok: bool)
    ensures
        ok == broadcast_signature_valid(*nullifier, sender, *signature_r, *signature_s, *public_key),
{
    if !crate::group::point_is_valid(public_key) {
        return false;
    }
    if !crate::group::point_is_valid(signature_r) {
        return false;
    }
    let s = match crate::group::scalar_from_canonical(*signature_s) {
        Some(s) => s,
        None => return false,
    };
    let e = nullifier_sig_challenge(signature_r, public_key, nullifier, sender);
    crate::group::schnorr_check(*signature_r, s, e, *public_key)
}

/// The broadcast message a node sends for a nullifier.
pub open spec fn broadcast_msg(nullifier: [u8; 32], sender: NodeId, r: [u8; 32], s: [u8; 32]) -> Message {
    Message::NullifierBroadcast { nullifier, sender, signature_r: r, signature_s: s }
}

/// Queue `msg` for each listed peer, in order, skipping the excluded
/// peer, peers without a queue and full queues.
pub open spec fn deliver(q: Map<NodeId, Seq<Message>>, peers: Seq<NodeId>, exclude: Option<NodeId>, msg: Message) -> Map<NodeId, Seq<Message>>
    decreases peers.len(),
{
    if peers.len() == 0 {
        q
    } else {
        let q1 = deliver(q, peers.drop_last(), exclude, msg);
        let p = peers.last();
        if exclude == Some(p) || !q1.contains_key(p) || q1[p].len() >= MAX_OUTBOX_PER_PEER {
            q1
        } else {
            q1.insert(p, q1[p].push(msg))
        }
    }
}

/// The number of times a peer is listed.
pub open spec fn occurrences(peers: Seq<NodeId>, p: NodeId) -> nat
    decreases peers.len(),
{
    if peers.len() == 0 {
        0
    } else {
        occurrences(peers.drop_last(), p) + if peers.last() == p { 1nat } else { 0nat }
    }
}

/// Relaying leaves the queue of the excluded peer, and of every peer not
/// listed, as it was; it never removes a queue or adds one.
pub proof fn law_relay_spares_others(q: Map<NodeId, Seq<Message>>, peers: Seq<NodeId>, exclude: Option<NodeId>, msg: Message, p: NodeId)
    requires
        exclude == Some(p) || occurrences(peers, p) == 0,
    ensures
        deliver(q, peers, exclude, msg).dom() == q.dom(),
        q.contains_key(p) ==> deliver(q, peers, exclude, msg)[p] == q[p],
    decreases peers.len(),
{
    if peers.len() > 0 {
        law_relay_spares_others(q, peers.drop_last(), exclude, msg, p);
        lemma_deliver_dom(q, peers.drop_last(), exclude, msg);
        let q1 = deliver(q, peers.drop_last(), exclude, msg);
        assert(deliver(q, peers, exclude, msg).dom() =~= q.dom());
    }
}

pub proof fn lemma_deliver_dom(q: Map<NodeId, Seq<Message>>, peers: Seq<NodeId>, exclude: Option<NodeId>, msg: Message)
    ensures
        deliver(q, peers, exclude, msg).dom() == q.dom(),
    decreases peers.len(),
{
    if peers.len() > 0 {
        lemma_deliver_dom(q, peers.drop_last(), exclude, msg);
        assert(deliver(q, peers, exclude, msg).dom() =~= q.dom());
    }
}

/// A peer listed once, other than the excluded one, whose queue has room
/// receives the message exactly once, at the end of its queue.
pub proof fn law_relay_reaches_peer(q: Map<NodeId, Seq<Message>>, peers: Seq<NodeId>, exclude: Option<NodeId>, msg: Message, p: NodeId)
    requires
        occurrences(peers, p) == 1,
        exclude != Some(p),
        q.contains_key(p),
        q[p].len() < MAX_OUTBOX_PER_PEER,
    ensures
        deliver(q, peers, exclude, msg)[p] == q[p].push(msg),
    decreases peers.len(),
{
    let init = peers.drop_last();
    lemma_deliver_dom(q, init, exclude, msg);
    if peers.last() == p {
        law_relay_spares_others(q, init, exclude, msg, p);
    } else {
        law_relay_reaches_peer(q, init, exclude, msg, p);
    }
}

/// A nullifier is accepted at most once: accepting a known nullifier
/// changes nothing and reports `false`.
pub proof fn law_accept_is_idempotent(v: GossipView, n: [u8; 32], x: Option<NodeId>, m1: Message, y: Option<NodeId>, m2: Message)
    requires
        v.seen.finite(),
    ensures
        v.accept(n, x, m1).1.seen.contains(n) || v.seen.len() >= MAX_KNOWN_NULLIFIERS,
        v.accept(n, x, m1).0 ==> v.accept(n, x, m1).1.accept(n, y, m2) == (false, v.accept(n, x, m1).1),
        v.accept(n, x, m1).0 ==> v.accept(n, x, m1).1.seen.len() == v.seen.len() + 1,
{
}

/// The abstract state of a gossip node.
pub struct GossipView {
    pub node_id: NodeId,
    pub seen: Set<[u8; 32]>,
    pub peers: Seq<NodeId>,
    pub queues: Map<NodeId, Seq<Message>>,
}

impl GossipView {
    /// Outcome of accepting a nullifier and relaying `msg` to all peers but
    /// `exclude`: `false` and no change when the node is full or already
    /// knows the nullifier.
    pub open spec fn accept(self, nullifier: [u8; 32], exclude: Option<NodeId>, msg: Message) -> (bool, GossipView) {
        if self.seen.len() >= MAX_KNOWN_NULLIFIERS || self.seen.contains(nullifier) {
            (false, self)
        } else {
            (true, GossipView {
                seen: self.seen.insert(nullifier),
                queues: deliver(self.queues, self.peers, exclude, msg),
                ..self
            })
        }
    }
}

/// A gossip layer that propagates nullifiers across the network.
pub struct GossipProtocol {
    /// This node's id.
    pub node_id: NodeId,
    seen_nullifiers: Table<[u8; 32], ()>,
    peers: Vec<NodeId>,
    outbox: Table<NodeId, Vec<Message>>,
}

/// The queues of an outbox, as sequences.
pub open spec fn queue_view(t: Map<NodeId, Vec<Message>>) -> Map<NodeId, Seq<Message>> {
    t.map_values(|v: Vec<Message>| v@)
}

impl GossipProtocol {
    pub closed spec fn view(&self) -> GossipView {
        GossipView {
            node_id: self.node_id,
            seen: self.seen_nullifiers@.dom(),
            peers: self.peers@,
            queues: queue_view(self.outbox@),
        }
    }

    /// The node's invariant.
    pub closed spec fn wf(&self) -> bool {
        self.seen_nullifiers.wf() && self.outbox.wf()
    }

    /// A node with the given peers, each with an empty queue.
    pub fn new(node_id: NodeId, peers: Vec<NodeId>) -> (g: Self)
        ensures
            g.wf(),
            g@.node_id == node_id,
            g@.seen == Set::<[u8; 32]>::empty(),
            g@.peers == peers@,
            g@.queues == Map::new(|p: NodeId| peers@.contains(p), |p: NodeId| Seq::<Message>::empty()),
    {
        let mut outbox: Table<NodeId, Vec<Message>> = Table::new();
        let mut i: usize = 0;
        while i < peers.len()
            invariant
                0 <= i <= peers@.len(),
                outbox.wf(),
                forall|p: NodeId| #[trigger] outbox@.contains_key(p) <==> exists|j: int| 0 <= j < i && peers@[j] == p,
                forall|p: NodeId| #[trigger] outbox@.contains_key(p) ==> outbox@[p]@ == Seq::<Message>::empty(),
            decreases peers@.len() - i,
        {
            let ghost before = outbox@;
            let v: Vec<Message> = Vec::new();
            outbox.insert(peers[i], v);
            proof {
                assert forall|p: NodeId| #[trigger] outbox@.contains_key(p) <==> exists|j: int| 0 <= j < i + 1 && peers@[j] == p by {
                    if p == peers@[i as int] {
                        assert(0 <= i < i + 1 && peers@[i as int] == p);
                    } else if outbox@.contains_key(p) {
                        assert(before.contains_key(p));
                        let j = choose|j: int| 0 <= j < i && peers@[j] == p;
                        assert(0 <= j < i + 1 && peers@[j] == p);
                    } else if exists|j: int| 0 <= j < i + 1 && peers@[j] == p {
                        let j = choose|j: int| 0 <= j < i + 1 && peers@[j] == p;
                        assert(j < i);
                        assert(before.contains_key(p));
                    }
                }
            }
            i = i + 1;
        }
        assert(queue_view(outbox@) =~= Map::new(|p: NodeId| peers@.contains(p), |p: NodeId| Seq::<Message>::empty()));
        let g = GossipProtocol { node_id, seen_nullifiers: Table::new(), peers, outbox };
        assert(g@.seen =~= Set::<[u8; 32]>::empty());
        g
    }

    /// Queue `nullifier`'s broadcast for every peer but `exclude`.
    fn relay(&mut self, nullifier: [u8; 32], exclude: Option<NodeId>, r: [u8; 32], s: [u8; 32])
        requires
            old(self).wf(),
        ensures
            final(self).wf(),
            final(self)@ == (GossipView {
                queues: deliver(old(self)@.queues, old(self)@.peers, exclude, broadcast_msg(nullifier, old(self).node_id, r, s)),
                ..old(self)@
            }),
    {
        let ghost q0 = self@.queues;
        let ghost msg = broadcast_msg(nullifier, self.node_id, r, s);
        let mut i: usize = 0;
        while i < self.peers.len()
            invariant
                0 <= i <= self.peers@.len(),
                self.wf(),
                self.node_id == old(self).node_id,
                self.peers@ == old(self).peers@,
                self.seen_nullifiers@ == old(self).seen_nullifiers@,
                msg == broadcast_msg(nullifier, self.node_id, r, s),
                queue_view(self.outbox@) == deliver(q0, self.peers@.take(i as int), exclude, msg),
            decreases self.peers@.len() - i,
        {
            let peer = self.peers[i];
            proof {
                assert(self.peers@.take(i + 1).drop_last() =~= self.peers@.take(i as int));
            }
            let skip = match exclude {
                Some(x) => x == peer,
                None => false,
            };
            if !skip {
                if let Some(j) = self.outbox.find(&peer) {
                    if self.outbox.value_at(j).len() < MAX_OUTBOX_PER_PEER {
                        let mut queue = self.outbox.replace_at(j, Vec::new());
                        queue.push(Message::NullifierBroadcast { nullifier, sender: self.node_id, signature_r: r, signature_s: s });
                        self.outbox.replace_at(j, queue);
                        proof {
                            let qa = deliver(q0, self.peers@.take(i as int), exclude, msg);
                            assert(queue_view(self.outbox@) =~= qa.insert(peer, qa[peer].push(msg)));
                        }
                    }
                }
            }
            i = i + 1;
        }
        assert(self.peers@.take(self.peers@.len() as int) =~= self.peers@);
    }

    /// Record a nullifier and relay it; `false` when full or already known.
    fn accept(&mut self, nullifier: [u8; 32], exclude: Option<NodeId>, r: [u8; 32], s: [u8; 32]) -> (fresh: bool)
        requires
            old(self).wf(),
        ensures
            final(self).wf(),
            (fresh, final(self)@) == old(self)@.accept(nullifier, exclude, broadcast_msg(nullifier, old(self).node_id, r, s)),
    {
        if self.seen_nullifiers.len() >= MAX_KNOWN_NULLIFIERS {
            return false;
        }
        if self.seen_nullifiers.contains(&nullifier) {
            return false;
        }
        self.seen_nullifiers.insert(nullifier, ());
        self.relay(nullifier, exclude, r, s);
        true
    }

    /// Broadcast a signed nullifier to all peers. Returns whether the
    /// nullifier was new.
    pub fn broadcast_nullifier_signed(&mut self, nullifier: [u8; 32], signature_r: [u8; 32], signature_s: [u8; 32]) -> (fresh: bool)
        requires
            old(self).wf(),
        ensures
            final(self).wf(),
            (fresh, final(self)@) == old(self)@.accept(nullifier, None, broadcast_msg(nullifier, old(self)@.node_id, signature_r, signature_s)),
    {
        self.accept(nullifier, None, signature_r, signature_s)
    }

    /// Broadcast a nullifier with an all-zero signature (which no
    /// verifying peer accepts). Returns whether the nullifier was new.
    pub fn broadcast_nullifier(&mut self, nullifier: [u8; 32]) -> (fresh: bool)
        requires
            old(self).wf(),
        ensures
            final(self).wf(),
            (fresh, final(self)@) == old(self)@.accept(nullifier, None, broadcast_msg(nullifier, old(self)@.node_id, [0u8; 32usize], [0u8; 32usize])),
    {
        self.broadcast_nullifier_signed(nullifier, [0u8; 32], [0u8; 32])
    }

    /// Accept a received broadcast after checking the sender's signature;
    /// if it is new, relay it to every peer but the sender.
    pub fn handle_verified_broadcast(
        &mut self,
        nullifier: [u8; 32],
        from: NodeId,
        signature_r: &[u8; 32],
        signature_s: &[u8; 32],
        validator_keys: &HashMap<NodeId, [u8; 32]>,
    ) -> (r: Result<bool, GossipError>)
        requires
            old(self).wf(),
        ensures
            final(self).wf(),
            !validator_keys@.contains_key(from) ==> r == Err::<bool, GossipError>(GossipError::UnknownSender(from)) && final(self)@ == old(self)@,
            validator_keys@.contains_key(from) && !broadcast_signature_valid(nullifier, from, *signature_r, *signature_s, validator_keys@[from])
                ==> r == Err::<bool, GossipError>(GossipError::InvalidSignature(from)) && final(self)@ == old(self)@,
            validator_keys@.contains_key(from) && broadcast_signature_valid(nullifier, from, *signature_r, *signature_s, validator_keys@[from]) ==> {
                if old(self)@.seen.len() >= MAX_KNOWN_NULLIFIERS {
                    r == Err::<bool, GossipError>(GossipError::AtCapacity) && final(self)@ == old(self)@
                } else {
                    (r, final(self)@) == ({
                        let (fresh, v) = old(self)@.accept(nullifier, Some(from), broadcast_msg(nullifier, old(self)@.node_id, *signature_r, *signature_s));
                        (Ok::<bool, GossipError>(fresh), v)
                    })
                }
            },
    {
        let pubkey = match validator_keys.get(&from) {
            Some(pk) => pk,
            None => return Err(GossipError::UnknownSender(from)),
        };
        if !verify_nullifier_broadcast(&nullifier, from, signature_r, signature_s, pubkey) {
            return Err(GossipError::InvalidSignature(from));
        }
        if self.seen_nullifiers.len() >= MAX_KNOWN_NULLIFIERS {
            return Err(GossipError::AtCapacity);
        }
        let fresh = self.accept(nullifier, Some(from), *signature_r, *signature_s);
        Ok(fresh)
    }

    /// Accept a received broadcast without checking any signature; if it
    /// is new, relay it (with a zero signature) to every peer but the
    /// sender. Meant for tests and simulations only.
    pub fn handle_nullifier_broadcast(&mut self, nullifier: [u8; 32], from: NodeId) -> (fresh: bool)
        requires
            old(self).wf(),
        ensures
            final(self).wf(),
            (fresh, final(self)@) == old(self)@.accept(nullifier, Some(from), broadcast_msg(nullifier, old(self)@.node_id, [0u8; 32usize], [0u8; 32usize])),
    {
        self.accept(nullifier, Some(from), [0u8; 32], [0u8; 32])
    }

    /// Take the queued messages for a peer, leaving its queue empty.
    pub fn drain_messages_for(&mut self, peer_id: NodeId) -> (msgs: Vec<Message>)
        requires
            old(self).wf(),
        ensures
            final(self).wf(),
            old(self)@.queues.contains_key(peer_id) ==> msgs@ == old(self)@.queues[peer_id]
                && final(self)@ == (GossipView { queues: old(self)@.queues.insert(peer_id, Seq::empty()), ..old(self)@ }),
            !old(self)@.queues.contains_key(peer_id) ==> msgs@.len() == 0 && final(self)@ == old(self)@,
    {
        match self.outbox.find(&peer_id) {
            Some(j) => {
                let q = self.outbox.replace_at(j, Vec::new());
                proof {
                    assert(queue_view(self.outbox@) =~= queue_view(old(self).outbox@).insert(peer_id, Seq::empty()));
                }
                q
            },
            None => Vec::new(),
        }
    }

    /// Number of known nullifiers.
    pub fn known_nullifiers(&self) -> (n: usize)
        requires
            self.wf(),
        ensures
            n == self@.seen.len(),
    {
        self.seen_nullifiers.len()
    }

    /// Whether a nullifier is known.
    pub fn has_nullifier(&self, nullifier: &[u8; 32]) -> (b: bool)
        requires
            self.wf(),
        ensures
            b == self@.seen.contains(*nullifier),
    {
        self.seen_nullifiers.contains(nullifier)
    }
}

} // verus!
