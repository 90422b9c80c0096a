//! Revocation and expiry of credentials.

use vstd::prelude::*;
use crate::table::Table;
use crate::credential::credential::Credential;

verus! {

/// The credentials revoked so far, by commitment.
pub struct RevocationList {
    revoked: Table<[u8; 32], ()>,
}

impl RevocationList {
    /// The revoked commitments.
    pub closed spec fn view(&self) -> Set<[u8; 32]> {
        self.revoked@.dom()
    }

    pub closed spec fn wf(&self) -> bool {
        self.revoked.wf()
    }

    /// An empty list.
    pub fn new() -> (l: Self)
        ensures
            l.wf(),
            l@ == Set::<[u8; 32]>::empty(),
    {
        let l = RevocationList { revoked: Table::new() };
        assert(l@ =~= Set::<[u8; 32]>::empty());
        l
    }

    /// Revoke a credential.
    pub fn revoke(&mut self, credential: &Credential)
        requires
            old(self).wf(),
        ensures
            final(self).wf(),
            final(self)@ == old(self)@.insert(credential.commitment),
    {
        self.revoked.insert(credential.commitment, ());
        assert(self@ =~= old(self)@.insert(credential.commitment));
    }

    /// Whether a credential is revoked.
    pub fn is_revoked(&self, credential: &Credential) -> (b: bool)
        requires
            self.wf(),
        ensures
            b == self@.contains(credential.commitment),
    {
        self.revoked.contains(&credential.commitment)
    }

    /// Number of revoked credentials.
    pub fn count(&self) -> (n: usize)
        requires
            self.wf(),
        ensures
            n == self@.len(),
    {
        self.revoked.len()
    }
}

/// Whether a credential has expired: it has an expiry time (nonzero) and
/// the current time is past it.
pub fn is_expired(credential: &Credential, current_time: u64) -> (b: bool)
    ensures
        b == (credential.attributes.expires_at > 0 && current_time > credential.attributes.expires_at),
{
    credential.attributes.expires_at > 0 && current_time > credential.attributes.expires_at
}

/// Revoking a credential is permanent and affects only credentials with
/// the same commitment.
pub proof fn law_revocation_is_sticky(revoked: Set<[u8; 32]>, c: [u8; 32], d: [u8; 32])
    ensures
        revoked.insert(c).contains(c),
        revoked.insert(c).contains(d) <==> (revoked.contains(d) || d == c),
{
}

} // verus!
