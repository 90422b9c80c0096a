//! Randomness from the operating system.

use vstd::prelude::*;
use rand::Rng;
use rand_core::RngCore;
use zeroize::Zeroize;

verus! {

/// Calls `rand_core::OsRng::fill_bytes` on a fresh buffer of `len` bytes.
/// Claims only the length of the result: its contents are random.
#[verifier::external_body]
pub(crate) fn random_bytes(len: usize) -> (r: Vec<u8>)
    ensures
        r@.len() == len,
{
    let mut out = vec![0u8; len];
    rand_core::OsRng.fill_bytes(&mut out);
    out
}

/// Calls `rand::Rng::gen_range(0..bound)` on the thread-local generator.
/// Claims only that the result lies below `bound`.
#[verifier::external_body]
pub(crate) fn random_below(bound: u64) -> (r: u64)
    requires
        bound > 0,
    ensures
        r < bound,
{
    rand::thread_rng().gen_range(0..bound)
}

/// Calls `zeroize::Zeroize::zeroize` on a byte buffer. Claims: the
/// buffer keeps its length and every byte becomes zero.
#[verifier::external_body]
pub(crate) fn wipe(buf: &mut [u8])
    ensures
        final(buf)@.len() == old(buf)@.len(),
        forall|i: int| 0 <= i < final(buf)@.len() ==> final(buf)@[i] == 0u8,
{
    buf.zeroize();
}

/// Calls `zeroize::Zeroize::zeroize` on a byte vector, which zeroes its
/// contents and spare capacity and then clears it. Claims: the vector is
/// left empty; the call neither panics nor opens invariants.
#[verifier::external_body]
pub(crate) fn wipe_vec(v: &mut Vec<u8>)
    ensures
        final(v)@.len() == 0,
    opens_invariants none
    no_unwind
{
    v.zeroize();
}


/// Calls `zeroize::Zeroize::zeroize` on a 32-byte array. Claims: every
/// byte becomes zero; the call neither panics nor opens invariants.
#[verifier::external_body]
pub(crate) fn wipe_array32(a: &mut [u8; 32])
    ensures
        final(a)@ == Seq::new(32, |i: int| 0u8),
    opens_invariants none
    no_unwind
{
    a.zeroize();
}

} // verus!
