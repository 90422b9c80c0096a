//! Nullifiers: deterministic tags of spent tokens, and the set of spent
//! nullifiers that detects double spends.

use vstd::prelude::*;
use vstd::string::*;
use crate::hashing::spec_shake256;
use crate::table::Table;

verus! {

/// The bytes absorbed to derive a nullifier.
pub open spec fn nullifier_input(secret: [u8; 32], token_id: [u8; 32]) -> Seq<u8> {
    "specter-nullifier:".spec_bytes() + secret@ + token_id@
}

/// The nullifier of a token under an owner secret.
pub open spec fn spec_nullifier(secret: [u8; 32], token_id: [u8; 32]) -> Seq<u8> {
    spec_shake256(nullifier_input(secret, token_id), 32)
}

/// `SHAKE-256("specter-nullifier:" ‖ secret ‖ token_id)`, 32 bytes.
pub fn compute_nullifier(secret: &[u8; 32], token_id: &[u8; 32]) -> (n: [u8; 32])
    ensures
        n@ == spec_nullifier(*secret, *token_id),
{
    let mut buf: Vec<u8> = Vec::new();
    crate::bytes::append_bytes(&mut buf, "specter-nullifier:".as_bytes());
    crate::bytes::append_bytes(&mut buf, secret);
    crate::bytes::append_bytes(&mut buf, token_id);
    let out = crate::hashing::shake256(buf.as_slice(), 32);
    crate::bytes::to_array32(out.as_slice())
}

/// Largest nullifier file accepted: ten million entries.
pub const MAX_NULLIFIER_FILE_SIZE: usize = 320_000_000;

/// Why stored nullifiers could not be loaded.
#[derive(Debug, PartialEq, Eq, Clone, Copy)]
pub enum LoadError {
    /// The stored data exceeds the size limit.
    TooLarge { len: usize },
    /// The stored data is not a whole number of 32-byte entries.
    InvalidSize { len: usize },
}

/// The 32-byte entries of a byte string, in order.
pub open spec fn chunks32(b: Seq<u8>) -> Seq<Seq<u8>>
    decreases b.len(),
{
    if b.len() < 32 {
        Seq::empty()
    } else {
        seq![b.subrange(0, 32)] + chunks32(b.subrange(32, b.len() as int))
    }
}

/// A set of spent nullifiers.
pub struct NullifierSet {
    nullifiers: Table<[u8; 32], ()>,
}

impl NullifierSet {
    /// The spent nullifiers.
    pub closed spec fn view(&self) -> Set<[u8; 32]> {
        self.nullifiers@.dom()
    }

    pub closed spec fn wf(&self) -> bool {
        self.nullifiers.wf()
    }

    /// An empty set.
    pub fn new() -> (s: Self)
        ensures
            s.wf(),
            s@ == Set::<[u8; 32]>::empty(),
    {
        let s = NullifierSet { nullifiers: Table::new() };
        assert(s@ =~= Set::<[u8; 32]>::empty());
        s
    }

    /// Rebuild a set from its stored form: concatenated 32-byte entries.
    pub fn from_stored(buf: &[u8]) -> (r: Result<Self, LoadError>)
        ensures
            buf@.len() > MAX_NULLIFIER_FILE_SIZE ==> r == Err::<Self, LoadError>(LoadError::TooLarge { len: buf@.len() as usize }),
            buf@.len() <= MAX_NULLIFIER_FILE_SIZE && buf@.len() % 32 != 0 ==> r == Err::<Self, LoadError>(LoadError::InvalidSize { len: buf@.len() as usize }),
            buf@.len() <= MAX_NULLIFIER_FILE_SIZE && buf@.len() % 32 == 0 ==> r.is_ok() && r.unwrap().wf()
                && forall|n: [u8; 32]| r.unwrap()@.contains(n) <==> exists|i: int| 0 <= i < buf@.len() / 32 && n@ == #[trigger] buf@.subrange(32 * i, 32 * i + 32),
    {
        if buf.len() > MAX_NULLIFIER_FILE_SIZE {
            return Err(LoadError::TooLarge { len: buf.len() });
        }
        if buf.len() % 32 != 0 {
            return Err(LoadError::InvalidSize { len: buf.len() });
        }
        let mut set = NullifierSet::new();
        let count = buf.len() / 32;
        let mut i: usize = 0;
        while i < count
            invariant
                0 <= i <= count,
                count == buf@.len() / 32,
                buf@.len() % 32 == 0,
                buf@.len() <= MAX_NULLIFIER_FILE_SIZE,
                set.wf(),
                forall|n: [u8; 32]| set@.contains(n) <==> exists|j: int| 0 <= j < i && n@ == #[trigger] buf@.subrange(32 * j, 32 * j + 32),
            decreases count - i,
        {
            assert(32 * i + 32 <= buf@.len()) by (nonlinear_arith)
                requires
                    i < count,
                    count == buf@.len() / 32,
            ;
            let mut entry = [0u8; 32];
            let mut k: usize = 0;
            while k < 32
                invariant
                    0 <= k <= 32,
                    i < count,
                    32 * i + 32 <= buf@.len(),
                    buf@.len() <= MAX_NULLIFIER_FILE_SIZE,
                    forall|m: int| 0 <= m < k ==> entry@[m] == buf@[32 * i + m],
                decreases 32 - k,
            {
                entry[k] = buf[32 * i + k];
                k = k + 1;
            }
            assert(entry@ =~= buf@.subrange(32 * i as int, 32 * i as int + 32));
            let ghost before = set@;
            set.insert(entry);
            proof {
                assert forall|n: [u8; 32]| set@.contains(n) <==> exists|j: int| 0 <= j < i + 1 && n@ == #[trigger] buf@.subrange(32 * j, 32 * j + 32) by {
                    if n == entry {
                        assert(n@ == buf@.subrange(32 * i as int, 32 * i as int + 32));
                    } else if set@.contains(n) {
                        assert(before.contains(n));
                    } else if exists|j: int| 0 <= j < i + 1 && n@ == #[trigger] buf@.subrange(32 * j, 32 * j + 32) {
                        let j = choose|j: int| 0 <= j < i + 1 && n@ == #[trigger] buf@.subrange(32 * j, 32 * j + 32);
                        if j == i {
                            assert(n =~= entry);
                        }
                    }
                }
            }
            i = i + 1;
        }
        Ok(set)
    }

    /// Record a spend; `true` if the nullifier was new, `false` if it was
    /// already spent (a double spend).
    pub fn insert(&mut self, nullifier: [u8; 32]) -> (fresh: bool)
        requires
            old(self).wf(),
        ensures
            final(self).wf(),
            fresh == !old(self)@.contains(nullifier),
            final(self)@ == old(self)@.insert(nullifier),
    {
        if self.nullifiers.contains(&nullifier) {
            assert(old(self)@.insert(nullifier) =~= old(self)@);
            return false;
        }
        self.nullifiers.insert(nullifier, ());
        assert(self@ =~= old(self)@.insert(nullifier));
        true
    }

    /// Whether a nullifier has been spent.
    pub fn contains(&self, nullifier: &[u8; 32]) -> (b: bool)
        requires
            self.wf(),
        ensures
            b == self@.contains(*nullifier),
    {
        self.nullifiers.contains(nullifier)
    }

    /// Number of spent nullifiers.
    pub fn len(&self) -> (n: usize)
        requires
            self.wf(),
        ensures
            n == self@.len(),
            self@.finite(),
    {
        self.nullifiers.len()
    }

    /// Whether no nullifier has been spent.
    pub fn is_empty(&self) -> (b: bool)
        requires
            self.wf(),
        ensures
            b == (self@.len() == 0),
    {
        self.nullifiers.len() == 0
    }

    /// The spent nullifiers as 32-byte entries, in insertion order: the
    /// stored form that `from_stored` reads back.
    pub fn to_stored(&self) -> (buf: Vec<u8>)
        requires
            self.wf(),
        ensures
            buf@.len() == 32 * self@.len(),
            forall|n: [u8; 32]| self@.contains(n) <==> exists|i: int| 0 <= i < buf@.len() / 32 && n@ == #[trigger] buf@.subrange(32 * i, 32 * i + 32),
    {
        let mut buf: Vec<u8> = Vec::new();
        let len = self.nullifiers.len();
        let mut i: usize = 0;
        while i < len
            invariant
                0 <= i <= len,
                len == self.nullifiers.entries().len(),
                self.nullifiers.wf(),
                buf@.len() == 32 * i,
                forall|j: int| 0 <= j < i ==> #[trigger] buf@.subrange(32 * j, 32 * j + 32) == self.nullifiers.entries()[j].0@,
            decreases len - i,
        {
            let k = self.nullifiers.key_at(i);
            let ghost before = buf@;
            crate::bytes::append_bytes(&mut buf, &k);
            proof {
                assert forall|j: int| 0 <= j < i + 1 implies #[trigger] buf@.subrange(32 * j, 32 * j + 32) == self.nullifiers.entries()[j].0@ by {
                    if j < i {
                        assert(buf@.subrange(32 * j, 32 * j + 32) =~= before.subrange(32 * j, 32 * j + 32));
                    } else {
                        assert(buf@.subrange(32 * j, 32 * j + 32) =~= k@);
                    }
                }
            }
            i = i + 1;
        }
        proof {
            crate::table::lemma_map_of_finite_len(self.nullifiers.entries());
            assert forall|n: [u8; 32]| self@.contains(n) <==> exists|i: int| 0 <= i < buf@.len() / 32 && n@ == #[trigger] buf@.subrange(32 * i, 32 * i + 32) by {
                crate::table::lemma_map_of_dom(self.nullifiers.entries(), n);
                if self@.contains(n) {
                    let i = choose|i: int| crate::table::has_key_at(self.nullifiers.entries(), n, i);
                    assert(n@ == buf@.subrange(32 * i, 32 * i + 32));
                }
                if exists|i: int| 0 <= i < buf@.len() / 32 && n@ == #[trigger] buf@.subrange(32 * i, 32 * i + 32) {
                    let i = choose|i: int| 0 <= i < buf@.len() / 32 && n@ == #[trigger] buf@.subrange(32 * i, 32 * i + 32);
                    assert(n =~= self.nullifiers.entries()[i].0);
                    assert(crate::table::has_key_at(self.nullifiers.entries(), n, i));
                }
            }
        }
        buf
    }
}

/// Spending the same token twice is detected: the second insertion of a
/// nullifier reports a double spend and changes nothing.
pub proof fn law_second_spend_detected(s: Set<[u8; 32]>, n: [u8; 32])
    ensures
        s.insert(n).contains(n),
        s.insert(n).insert(n) == s.insert(n),
{
    assert(s.insert(n).insert(n) =~= s.insert(n));
}

/// The nullifier is a function of the secret and the token alone.
pub proof fn law_nullifier_deterministic(s1: [u8; 32], t1: [u8; 32], s2: [u8; 32], t2: [u8; 32])
    requires
        s1 == s2,
        t1 == t2,
    ensures
        spec_nullifier(s1, t1) == spec_nullifier(s2, t2),
{
}

} // verus!
