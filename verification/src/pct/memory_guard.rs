//! A heap buffer for decrypted secrets that is wiped when dropped.
//!
//! Page locking (`mlock`) and disabling core dumps need operating-system
//! calls; this build provides the portable behaviour: the buffer is
//! never reported as locked, and disabling core dumps is a no-op that
//! succeeds.

use vstd::prelude::*;

verus! {

/// A heap-allocated byte buffer that is zeroed on drop.
pub struct LockedBytes {
    data: Vec<u8>,
    locked: bool,
}

/// Attempt to lock a buffer's pages into memory. Without operating
/// system support this reports failure.
fn try_lock(_data: &[u8]) -> (ok: bool)
    ensures
        !ok,
{
    false
}

/// Release a buffer's page lock. Without operating system support there
/// is nothing to release.
fn try_unlock(_data: &Vec<u8>)
    opens_invariants none
    no_unwind
{
}

/// Disable core dumps. Without operating system support this is a no-op
/// that succeeds.
fn disable_core_dumps_impl() -> (ok: bool)
    ensures
        ok,
{
    true
}

impl LockedBytes {
    pub closed spec fn view(&self) -> Seq<u8> {
        self.data@
    }

    pub closed spec fn locked_spec(&self) -> bool {
        self.locked
    }

    /// `len` zero bytes.
    pub fn new(len: usize) -> (b: Self)
        ensures
            b@ == Seq::new(len as nat, |i: int| 0u8),
            !b.locked_spec(),
    {
        let data = vec![0u8; len];
        let locked = try_lock(data.as_slice());
        LockedBytes { data, locked }
    }

    /// Take ownership of an existing buffer.
    pub fn from_vec(v: Vec<u8>) -> (b: Self)
        ensures
            b@ == v@,
            !b.locked_spec(),
    {
        let locked = try_lock(v.as_slice());
        LockedBytes { data: v, locked }
    }

    /// The bytes.
    pub fn as_slice(&self) -> (s: &[u8])
        ensures
            s@ == self@,
    {
        self.data.as_slice()
    }

    /// The bytes, for writing.
    pub fn as_mut_slice(&mut self) -> (s: &mut [u8])
        ensures
            s@ == old(self)@,
            final(s)@ == final(self)@,
            final(self).locked_spec() == old(self).locked_spec(),
    {
        self.data.as_mut_slice()
    }

    /// Whether the pages were locked into physical memory.
    pub fn is_locked(&self) -> (b: bool)
        ensures
            b == self.locked_spec(),
    {
        self.locked
    }

    /// Number of bytes.
    pub fn len(&self) -> (n: usize)
        ensures
            n == self@.len(),
    {
        self.data.len()
    }

    /// Whether there are no bytes.
    pub fn is_empty(&self) -> (b: bool)
        ensures
            b == (self@.len() == 0),
    {
        self.data.len() == 0
    }
}

impl Drop for LockedBytes {
    /// Zeroes and releases the bytes.
    fn drop(&mut self)
        opens_invariants none
        no_unwind
    {
        crate::rng::wipe_vec(&mut self.data);
        if self.locked {
            try_unlock(&self.data);
        }
    }
}

/// Disable core dumps for the process; succeeds (a no-op where the
/// platform offers no such control).
pub fn disable_core_dumps() -> (ok: bool)
    ensures
        ok,
{
    disable_core_dumps_impl()
}

} // verus!
