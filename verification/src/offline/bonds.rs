//! Reputation bonds: collateral that covers tokens spent while offline.
//!
//! An owner stakes an amount; receivers check that the owner's bond
//! covers the owner's current offline exposure plus the new token. A
//! bond can be slashed on evidence of a double spend, and withdrawn only
//! after a lock period during which it can still be slashed.

use vstd::prelude::*;
use vstd::string::*;
use crate::table::{Table, TableKey, map_of, keys_unique, has_key_at, lemma_map_of_dom};
use crate::hashing::spec_sha256;

verus! {

/// Default lock period: seven days, in seconds.
pub const DEFAULT_LOCK_PERIOD_SECS: u64 = 604800;

/// A reputation bond: collateral staked by an owner.
#[derive(Clone, Copy, Debug)]
pub struct Bond {
    /// Unique bond identifier.
    pub bond_id: [u8; 32],
    /// Owner identifier (hash of public key).
    pub owner_id: [u8; 32],
    /// Amount staked as collateral.
    pub amount: u64,
    /// Whether the bond is active (not slashed).
    pub active: bool,
    /// Total value of tokens currently held offline by this owner.
    pub offline_exposure: u64,
    /// Time at which withdrawal was requested, if it was.
    pub withdrawal_requested_at: Option<u64>,
}

/// Errors of bond operations.
#[derive(Debug, PartialEq, Eq, Clone, Copy)]
pub enum BondError {
    NoBond,
    BondSlashed,
    InsufficientBond { available: u64, needed: u64 },
    ExposureNotSettled { remaining: u64 },
    WithdrawalNotRequested,
    LockPeriodNotElapsed,
    AlreadyHasBond,
    InsufficientEvidence,
}

/// The abstract state of a registry: bonds by bond id, bond ids by owner,
/// and the lock period.
pub struct RegistryView {
    pub bonds: Map<[u8; 32], Bond>,
    pub owners: Map<[u8; 32], [u8; 32]>,
    pub lock_period_secs: u64,
}

impl RegistryView {
    /// The bond an owner is linked to, if the link and the bond exist.
    pub open spec fn bond_of(self, owner: [u8; 32]) -> Option<Bond> {
        if self.owners.contains_key(owner) && self.bonds.contains_key(self.owners[owner]) {
            Some(self.bonds[self.owners[owner]])
        } else {
            None
        }
    }

    /// Whether the owner's bond covers its exposure plus `value`.
    pub open spec fn covers(self, owner: [u8; 32], value: u64) -> bool {
        match self.bond_of(owner) {
            Some(b) => b.active && b.offline_exposure + value <= b.amount,
            None => false,
        }
    }

    /// The same state with the owner's bond replaced by `b`.
    pub open spec fn with_bond(self, owner: [u8; 32], b: Bond) -> RegistryView {
        RegistryView { bonds: self.bonds.insert(self.owners[owner], b), ..self }
    }

    /// Outcome of registering an offline spend of `amount`.
    pub open spec fn register_spend(self, owner: [u8; 32], amount: u64) -> (Result<(), BondError>, RegistryView) {
        match self.bond_of(owner) {
            None => (Err(BondError::NoBond), self),
            Some(b) => if !b.active {
                (Err(BondError::BondSlashed), self)
            } else if b.offline_exposure + amount > b.amount {
                (Err(BondError::InsufficientBond {
                    available: if b.amount >= b.offline_exposure { (b.amount - b.offline_exposure) as u64 } else { 0 },
                    needed: amount,
                }), self)
            } else {
                (Ok(()), self.with_bond(owner, Bond { offline_exposure: (b.offline_exposure + amount) as u64, ..b }))
            },
        }
    }

    /// Outcome of settling `amount` of the owner's exposure.
    pub open spec fn settle(self, owner: [u8; 32], amount: u64) -> (Result<(), BondError>, RegistryView) {
        match self.bond_of(owner) {
            None => (Err(BondError::NoBond), self),
            Some(b) => (Ok(()), self.with_bond(owner, Bond {
                offline_exposure: if b.offline_exposure >= amount { (b.offline_exposure - amount) as u64 } else { 0 },
                ..b
            })),
        }
    }

    /// Outcome of slashing the owner's bond on two pieces of evidence.
    pub open spec fn slash(self, owner: [u8; 32], a: [u8; 32], b: [u8; 32]) -> (Result<u64, BondError>, RegistryView) {
        if a == b {
            (Err(BondError::InsufficientEvidence), self)
        } else {
            match self.bond_of(owner) {
                None => (Err(BondError::NoBond), self),
                Some(bond) => if !bond.active {
                    (Err(BondError::BondSlashed), self)
                } else {
                    (Ok(bond.amount), self.with_bond(owner, Bond { active: false, ..bond }))
                },
            }
        }
    }

    /// Outcome of requesting withdrawal at time `now`.
    pub open spec fn request_withdrawal(self, owner: [u8; 32], now: u64) -> (Result<u64, BondError>, RegistryView) {
        match self.bond_of(owner) {
            None => (Err(BondError::NoBond), self),
            Some(b) => if !b.active {
                (Err(BondError::BondSlashed), self)
            } else if b.offline_exposure > 0 {
                (Err(BondError::ExposureNotSettled { remaining: b.offline_exposure }), self)
            } else {
                (Ok((now + self.lock_period_secs) as u64), self.with_bond(owner, Bond { withdrawal_requested_at: Some(now), ..b }))
            },
        }
    }

    /// Outcome of withdrawing at time `now`.
    pub open spec fn withdraw(self, owner: [u8; 32], now: u64) -> (Result<u64, BondError>, RegistryView) {
        match self.bond_of(owner) {
            None => (Err(BondError::NoBond), self),
            Some(b) => if !b.active {
                (Err(BondError::BondSlashed), self)
            } else if b.withdrawal_requested_at is None {
                (Err(BondError::WithdrawalNotRequested), self)
            } else if now < b.withdrawal_requested_at.unwrap() + self.lock_period_secs {
                (Err(BondError::LockPeriodNotElapsed), self)
            } else if b.offline_exposure > 0 {
                (Err(BondError::ExposureNotSettled { remaining: b.offline_exposure }), self)
            } else {
                (Ok(b.amount), RegistryView {
                    bonds: self.bonds.remove(self.owners[owner]),
                    owners: self.owners.remove(owner),
                    ..self
                })
            },
        }
    }

    /// Whether a deposit by `owner` is refused because it holds an active bond.
    pub open spec fn has_active_bond(self, owner: [u8; 32]) -> bool {
        match self.bond_of(owner) {
            Some(b) => b.active,
            None => false,
        }
    }
}

/// The bytes hashed to derive a bond id.
pub open spec fn bond_id_input(owner: [u8; 32], amount: u64, nonce: Seq<u8>) -> Seq<u8> {
    "specter-bond:".spec_bytes() + owner@ + vstd::bytes::spec_u64_to_le_bytes(amount) + nonce
}

/// A fresh bond of `amount` for `owner` under identifier `id`.
pub open spec fn fresh_bond(id: [u8; 32], owner: [u8; 32], amount: u64) -> Bond {
    Bond { bond_id: id, owner_id: owner, amount, active: true, offline_exposure: 0, withdrawal_requested_at: None }
}

/// The bond registry: tracks every bond and which bond each owner holds.
pub struct BondRegistry {
    bonds: Table<[u8; 32], Bond>,
    owner_bonds: Table<[u8; 32], [u8; 32]>,
    /// Lock period in seconds before withdrawal is allowed.
    pub lock_period_secs: u64,
}

impl BondRegistry {
    pub closed spec fn view(&self) -> RegistryView {
        RegistryView { bonds: self.bonds@, owners: self.owner_bonds@, lock_period_secs: self.lock_period_secs }
    }

    /// The registry's invariant.
    pub closed spec fn wf(&self) -> bool {
        self.bonds.wf() && self.owner_bonds.wf()
    }

    /// Create an empty bond registry with the default lock period.
    pub fn new() -> (r: Self)
        ensures
            r.wf(),
            r@.bonds == Map::<[u8; 32], Bond>::empty(),
            r@.owners == Map::<[u8; 32], [u8; 32]>::empty(),
            r@.lock_period_secs == DEFAULT_LOCK_PERIOD_SECS,
    {
        BondRegistry { bonds: Table::new(), owner_bonds: Table::new(), lock_period_secs: DEFAULT_LOCK_PERIOD_SECS }
    }

    /// Position of the owner's bond in the bond table, if it exists.
    fn locate(&self, owner_id: &[u8; 32]) -> (r: Option<usize>)
        requires
            self.wf(),
        ensures
            r.is_some() <==> self@.bond_of(*owner_id).is_some(),
            r.is_some() ==> r.unwrap() < self.bonds.entries().len()
                && self.bonds.entries()[r.unwrap() as int].0 == self@.owners[*owner_id]
                && self.bonds.entries()[r.unwrap() as int].1 == self@.bond_of(*owner_id).unwrap(),
    {
        match self.owner_bonds.get(owner_id) {
            None => None,
            Some(bond_id) => self.bonds.find(bond_id),
        }
    }

    /// Deposit a bond (stake collateral). Refused if the owner already
    /// holds an active bond. The bond id is the SHA-256 of
    /// `"specter-bond:" ‖ owner ‖ amount LE ‖ nonce` for a random 16-byte nonce.
    pub fn deposit(&mut self, owner_id: [u8; 32], amount: u64) -> (r: Result<Bond, BondError>)
        requires
            old(self).wf(),
        ensures
            final(self).wf(),
            old(self)@.has_active_bond(owner_id) ==> r == Err::<Bond, BondError>(BondError::AlreadyHasBond) && final(self)@ == old(self)@,
            !old(self)@.has_active_bond(owner_id) ==> r.is_ok() && {
                let b = r.unwrap();
                &&& b == fresh_bond(b.bond_id, owner_id, amount)
                &&& exists|nonce: Seq<u8>| nonce.len() == 16 && b.bond_id@ == spec_sha256(#[trigger] bond_id_input(owner_id, amount, nonce))
                &&& final(self)@ == RegistryView {
                    bonds: old(self)@.bonds.insert(b.bond_id, b),
                    owners: old(self)@.owners.insert(owner_id, b.bond_id),
                    lock_period_secs: old(self)@.lock_period_secs,
                }
            },
    {
        if let Some(i) = self.locate(&owner_id) {
            if self.bonds.value_at(i).active {
                return Err(BondError::AlreadyHasBond);
            }
        }
        let nonce = crate::rng::random_bytes(16);
        let mut buf: Vec<u8> = Vec::new();
        crate::bytes::append_bytes(&mut buf, "specter-bond:".as_bytes());
        crate::bytes::append_bytes(&mut buf, &owner_id);
        let amount_bytes = vstd::bytes::u64_to_le_bytes(amount);
        crate::bytes::append_bytes(&mut buf, amount_bytes.as_slice());
        crate::bytes::append_bytes(&mut buf, nonce.as_slice());
        let bond_id = crate::hashing::sha256(buf.as_slice());
        let bond = Bond {
            bond_id,
            owner_id,
            amount,
            active: true,
            offline_exposure: 0,
            withdrawal_requested_at: None,
        };
        assert(buf@ == bond_id_input(owner_id, amount, nonce@));
        self.bonds.insert(bond_id, bond);
        self.owner_bonds.insert(owner_id, bond_id);
        Ok(bond)
    }

    /// Whether the owner's bond covers its current offline exposure plus
    /// `token_value` (false without an active bond, or on overflow).
    pub fn check_coverage(&self, owner_id: &[u8; 32], token_value: u64) -> (r: bool)
        requires
            self.wf(),
        ensures
            r == self@.covers(*owner_id, token_value),
    {
        match self.locate(owner_id) {
            None => false,
            Some(i) => {
                let bond = self.bonds.value_at(i);
                if !bond.active {
                    return false;
                }
                match bond.offline_exposure.checked_add(token_value) {
                    Some(total) => bond.amount >= total,
                    None => false,
                }
            },
        }
    }

    /// Register an offline spend: increase the owner's exposure.
    pub fn register_offline_spend(&mut self, owner_id: &[u8; 32], amount: u64) -> (r: Result<(), BondError>)
        requires
            old(self).wf(),
        ensures
            final(self).wf(),
            (r, final(self)@) == old(self)@.register_spend(*owner_id, amount),
    {
        let i = match self.locate(owner_id) {
            None => return Err(BondError::NoBond),
            Some(i) => i,
        };
        let bond = *self.bonds.value_at(i);
        if !bond.active {
            return Err(BondError::BondSlashed);
        }
        let available = bond.amount.saturating_sub(bond.offline_exposure);
        let total_exposure = match bond.offline_exposure.checked_add(amount) {
            Some(t) => t,
            None => return Err(BondError::InsufficientBond { available, needed: amount }),
        };
        if bond.amount < total_exposure {
            return Err(BondError::InsufficientBond { available, needed: amount });
        }
        self.bonds.set_at(i, Bond { offline_exposure: total_exposure, ..bond });
        Ok(())
    }

    /// Settle an offline spend: decrease the exposure (not below zero).
    pub fn settle(&mut self, owner_id: &[u8; 32], amount: u64) -> (r: Result<(), BondError>)
        requires
            old(self).wf(),
        ensures
            final(self).wf(),
            (r, final(self)@) == old(self)@.settle(*owner_id, amount),
    {
        let i = match self.locate(owner_id) {
            None => return Err(BondError::NoBond),
            Some(i) => i,
        };
        let bond = *self.bonds.value_at(i);
        self.bonds.set_at(i, Bond { offline_exposure: bond.offline_exposure.saturating_sub(amount), ..bond });
        Ok(())
    }

    /// Slash the owner's bond, given two distinct conflicting nullifiers
    /// as evidence; returns the forfeited amount.
    pub fn slash(
        &mut self,
        owner_id: &[u8; 32],
        evidence_nullifier_a: &[u8; 32],
        evidence_nullifier_b: &[u8; 32],
    ) -> (r: Result<u64, BondError>)
        requires
            old(self).wf(),
        ensures
            final(self).wf(),
            (r, final(self)@) == old(self)@.slash(*owner_id, *evidence_nullifier_a, *evidence_nullifier_b),
    {
        if evidence_nullifier_a.same_key(evidence_nullifier_b) {
            return Err(BondError::InsufficientEvidence);
        }
        let i = match self.locate(owner_id) {
            None => return Err(BondError::NoBond),
            Some(i) => i,
        };
        let bond = *self.bonds.value_at(i);
        if !bond.active {
            return Err(BondError::BondSlashed);
        }
        self.bonds.set_at(i, Bond { active: false, ..bond });
        Ok(bond.amount)
    }

    /// Request withdrawal at `current_time`; returns the time from which
    /// the bond can be withdrawn. The bond stays slashable meanwhile.
    pub fn request_withdrawal(&mut self, owner_id: &[u8; 32], current_time: u64) -> (r: Result<u64, BondError>)
        requires
            old(self).wf(),
            current_time + old(self)@.lock_period_secs <= u64::MAX,
        ensures
            final(self).wf(),
            (r, final(self)@) == old(self)@.request_withdrawal(*owner_id, current_time),
    {
        let i = match self.locate(owner_id) {
            None => return Err(BondError::NoBond),
            Some(i) => i,
        };
        let bond = *self.bonds.value_at(i);
        if !bond.active {
            return Err(BondError::BondSlashed);
        }
        if bond.offline_exposure > 0 {
            return Err(BondError::ExposureNotSettled { remaining: bond.offline_exposure });
        }
        self.bonds.set_at(i, Bond { withdrawal_requested_at: Some(current_time), ..bond });
        Ok(current_time + self.lock_period_secs)
    }

    /// Withdraw the owner's bond once the lock period has elapsed;
    /// returns the amount and removes the bond.
    pub fn withdraw(&mut self, owner_id: &[u8; 32], current_time: u64) -> (r: Result<u64, BondError>)
        requires
            old(self).wf(),
        ensures
            final(self).wf(),
            (r, final(self)@) == old(self)@.withdraw(*owner_id, current_time),
    {
        let i = match self.locate(owner_id) {
            None => return Err(BondError::NoBond),
            Some(i) => i,
        };
        let bond = *self.bonds.value_at(i);
        if !bond.active {
            return Err(BondError::BondSlashed);
        }
        let requested_at = match bond.withdrawal_requested_at {
            None => return Err(BondError::WithdrawalNotRequested),
            Some(t) => t,
        };
        if current_time < requested_at || current_time - requested_at < self.lock_period_secs {
            return Err(BondError::LockPeriodNotElapsed);
        }
        if bond.offline_exposure > 0 {
            return Err(BondError::ExposureNotSettled { remaining: bond.offline_exposure });
        }
        let bond_id = self.bonds.key_at(i);
        self.bonds.remove(&bond_id);
        self.owner_bonds.remove(owner_id);
        Ok(bond.amount)
    }

    /// The owner's bond, if any.
    pub fn get_bond(&self, owner_id: &[u8; 32]) -> (r: Option<&Bond>)
        requires
            self.wf(),
        ensures
            r.is_some() <==> self@.bond_of(*owner_id).is_some(),
            r.is_some() ==> *r.unwrap() == self@.bond_of(*owner_id).unwrap(),
    {
        match self.locate(owner_id) {
            None => None,
            Some(i) => Some(self.bonds.value_at(i)),
        }
    }

    /// The bonds held in the registry, in deposit order.
    pub closed spec fn bond_list(&self) -> Seq<Bond> {
        self.bonds.entries().map_values(|e: ([u8; 32], Bond)| e.1)
    }

    /// Sets the lock period.
    pub fn set_lock_period(&mut self, secs: u64)
        requires
            old(self).wf(),
        ensures
            final(self).wf(),
            final(self)@ == (RegistryView { lock_period_secs: secs, ..old(self)@ }),
    {
        self.lock_period_secs = secs;
    }

    /// Number of active (not slashed) bonds.
    pub fn active_count(&self) -> (n: usize)
        requires
            self.wf(),
        ensures
            n == count_active(self.bond_list()),
            n == active_ids(self@).len(),
    {
        proof {
            lemma_count_active_entries(self.bonds.entries());
        }
        let len = self.bonds.len();
        let mut n: usize = 0;
        let mut i: usize = 0;
        while i < len
            invariant
                0 <= i <= len,
                len == self.bonds.entries().len(),
                n == count_active(self.bond_list().take(i as int)),
                n <= i,
            decreases len - i,
        {
            assert(self.bond_list().take(i + 1).drop_last() =~= self.bond_list().take(i as int));
            if self.bonds.value_at(i).active {
                n = n + 1;
            }
            i = i + 1;
        }
        assert(self.bond_list().take(len as int) =~= self.bond_list());
        n
    }
}

/// The ids of the active bonds.
pub open spec fn active_ids(v: RegistryView) -> Set<[u8; 32]> {
    v.bonds.dom().filter(|id: [u8; 32]| v.bonds[id].active)
}

/// The active entries of a table with distinct keys, counted in order,
/// are the active ids of the map it holds.
proof fn lemma_count_active_entries(s: Seq<([u8; 32], Bond)>)
    requires
        keys_unique(s),
    ensures
        map_of(s).dom().finite(),
        count_active(s.map_values(|e: ([u8; 32], Bond)| e.1))
            == map_of(s).dom().filter(|id: [u8; 32]| map_of(s)[id].active).len(),
    decreases s.len(),
{
    let vals = s.map_values(|e: ([u8; 32], Bond)| e.1);
    if s.len() == 0 {
        assert(map_of(s).dom() =~= Set::<[u8; 32]>::empty());
        assert(map_of(s).dom().filter(|id: [u8; 32]| map_of(s)[id].active) =~= Set::<[u8; 32]>::empty());
    } else {
        let t = s.drop_last();
        let e = s.last();
        assert(keys_unique(t)) by {
            assert forall|i: int, j: int| 0 <= i < t.len() && 0 <= j < t.len() && i != j implies t[i].0 != t[j].0 by {
                assert(t[i] == s[i] && t[j] == s[j]);
            }
        }
        lemma_count_active_entries(t);
        lemma_map_of_dom(t, e.0);
        if map_of(t).contains_key(e.0) {
            let i = choose|i: int| has_key_at(t, e.0, i);
            assert(s[i].0 == s[s.len() - 1].0);
        }
        assert(vals.drop_last() =~= t.map_values(|e: ([u8; 32], Bond)| e.1));
        let a = map_of(t).dom().filter(|id: [u8; 32]| map_of(t)[id].active);
        let b = map_of(s).dom().filter(|id: [u8; 32]| map_of(s)[id].active);
        map_of(t).dom().lemma_len_filter(|id: [u8; 32]| map_of(t)[id].active);
        if e.1.active {
            assert(b =~= a.insert(e.0));
        } else {
            assert(b =~= a);
        }
    }
}

/// Number of active bonds in a list.
pub open spec fn count_active(s: Seq<Bond>) -> nat
    decreases s.len(),
{
    if s.len() == 0 {
        0
    } else {
        count_active(s.drop_last()) + if s.last().active { 1nat } else { 0nat }
    }
}

/// Each owner's link leads to a stored bond that names that owner.
pub open spec fn owners_consistent(v: RegistryView) -> bool {
    forall|o: [u8; 32]| #[trigger] v.owners.contains_key(o) ==>
        v.bonds.contains_key(v.owners[o]) && v.bonds[v.owners[o]].owner_id == o
}

/// No operation breaks the link between an owner and its bond's
/// `owner_id`; a deposit keeps it when its bond id is new.
pub proof fn law_bond_names_its_owner(v: RegistryView, owner: [u8; 32], x: u64, y: [u8; 32], z: [u8; 32], id: [u8; 32], amount: u64)
    requires
        owners_consistent(v),
    ensures
        owners_consistent(v.register_spend(owner, x).1),
        owners_consistent(v.settle(owner, x).1),
        owners_consistent(v.slash(owner, y, z).1),
        owners_consistent(v.request_withdrawal(owner, x).1),
        owners_consistent(v.withdraw(owner, x).1),
        !v.bonds.contains_key(id) ==> owners_consistent(RegistryView {
            bonds: v.bonds.insert(id, fresh_bond(id, owner, amount)),
            owners: v.owners.insert(owner, id),
            lock_period_secs: v.lock_period_secs,
        }),
{
    let w = v.withdraw(owner, x).1;
    assert forall|o: [u8; 32]| #[trigger] w.owners.contains_key(o) implies
        w.bonds.contains_key(w.owners[o]) && w.bonds[w.owners[o]].owner_id == o by {
        if v.withdraw(owner, x).0 is Ok {
            assert(v.owners.contains_key(owner));
            assert(o != owner);
            assert(v.owners.contains_key(o));
            assert(v.owners[o] != v.owners[owner]);
        }
    }
    if !v.bonds.contains_key(id) {
        let d = RegistryView {
            bonds: v.bonds.insert(id, fresh_bond(id, owner, amount)),
            owners: v.owners.insert(owner, id),
            lock_period_secs: v.lock_period_secs,
        };
        assert forall|o: [u8; 32]| #[trigger] d.owners.contains_key(o) implies
            d.bonds.contains_key(d.owners[o]) && d.bonds[d.owners[o]].owner_id == o by {
            if o != owner {
                assert(v.owners.contains_key(o));
            }
        }
    }
    let ops = seq![v.register_spend(owner, x).1, v.settle(owner, x).1, v.slash(owner, y, z).1, v.request_withdrawal(owner, x).1];
    assert forall|k: int, o: [u8; 32]| 0 <= k < 4 && #[trigger] ops[k].owners.contains_key(o) implies
        ops[k].bonds.contains_key(ops[k].owners[o]) && ops[k].bonds[ops[k].owners[o]].owner_id == o by {
        assert(v.owners.contains_key(o));
        if v.owners.contains_key(owner) && v.owners[o] == v.owners[owner] {
            assert(v.bonds[v.owners[owner]].owner_id == owner);
        }
    }
    assert(ops[0] == v.register_spend(owner, x).1);
    assert(ops[1] == v.settle(owner, x).1);
    assert(ops[2] == v.slash(owner, y, z).1);
    assert(ops[3] == v.request_withdrawal(owner, x).1);
}

/// Every bond's offline exposure stays within its amount.
pub open spec fn exposure_within_amount(v: RegistryView) -> bool {
    forall|id: [u8; 32]| #[trigger] v.bonds.contains_key(id) ==> v.bonds[id].offline_exposure <= v.bonds[id].amount
}

/// After a deposit of `amount` by `owner`, the owner is covered for
/// exactly the token values up to `amount`.
pub proof fn law_deposit_then_coverage(before: RegistryView, after: RegistryView, owner: [u8; 32], amount: u64, id: [u8; 32], value: u64)
    requires
        after == (RegistryView {
            bonds: before.bonds.insert(id, fresh_bond(id, owner, amount)),
            owners: before.owners.insert(owner, id),
            lock_period_secs: before.lock_period_secs,
        }),
    ensures
        after.covers(owner, value) <==> value <= amount,
{
}

/// Registering an offline spend and settling the same amount restores
/// the registry.
pub proof fn law_register_then_settle(v: RegistryView, owner: [u8; 32], amount: u64)
    requires
        v.register_spend(owner, amount).0 is Ok,
    ensures
        v.register_spend(owner, amount).1.settle(owner, amount) == (Ok::<(), BondError>(()), v),
{
    let w = v.register_spend(owner, amount).1;
    let b = v.bond_of(owner).unwrap();
    assert(w.bond_of(owner) == Some(Bond { offline_exposure: (b.offline_exposure + amount) as u64, ..b }));
    assert(w.settle(owner, amount).1.bonds =~= v.bonds);
}

/// Once a bond is slashed, its owner covers nothing, and neither new
/// offline spends nor a withdrawal go through.
pub proof fn law_slashed_bond_is_dead(v: RegistryView, owner: [u8; 32], a: [u8; 32], b: [u8; 32], value: u64, amount: u64, now: u64)
    requires
        v.slash(owner, a, b).0 is Ok,
    ensures
        !v.slash(owner, a, b).1.covers(owner, value),
        v.slash(owner, a, b).1.register_spend(owner, amount).0 == Err::<(), BondError>(BondError::BondSlashed),
        v.slash(owner, a, b).1.withdraw(owner, now).0 == Err::<u64, BondError>(BondError::BondSlashed),
        v.slash(owner, a, b).1.slash(owner, a, b).0 == Err::<u64, BondError>(BondError::BondSlashed),
{
}

/// A bond cannot be withdrawn before the lock period that follows the
/// withdrawal request has elapsed.
pub proof fn law_withdraw_waits_for_lock(v: RegistryView, owner: [u8; 32], now: u64)
    requires
        v.withdraw(owner, now).0 is Ok,
    ensures
        v.bond_of(owner).unwrap().withdrawal_requested_at is Some,
        now >= v.bond_of(owner).unwrap().withdrawal_requested_at.unwrap() + v.lock_period_secs,
        v.bond_of(owner).unwrap().offline_exposure == 0,
{
}

/// No operation lets a bond's exposure exceed its amount.
pub proof fn law_exposure_stays_within_amount(v: RegistryView, owner: [u8; 32], x: u64, y: [u8; 32], z: [u8; 32], id: [u8; 32], amount: u64)
    requires
        exposure_within_amount(v),
    ensures
        exposure_within_amount(v.register_spend(owner, x).1),
        exposure_within_amount(v.settle(owner, x).1),
        exposure_within_amount(v.slash(owner, y, z).1),
        exposure_within_amount(v.request_withdrawal(owner, x).1),
        exposure_within_amount(v.withdraw(owner, x).1),
        exposure_within_amount(RegistryView {
            bonds: v.bonds.insert(id, fresh_bond(id, owner, amount)),
            owners: v.owners.insert(owner, id),
            lock_period_secs: v.lock_period_secs,
        }),
{
}

} // verus!
