//! A Fiat-Shamir transcript on SHAKE-256: it absorbs labelled data and
//! squeezes challenges, each challenge depending on everything absorbed
//! before it. The transcript keeps the bytes it has fed to the hash; a
//! challenge is the SHAKE-256 output over all of them.

use vstd::prelude::*;
use vstd::string::*;
use crate::bytes::le_nat;
use crate::hashing::spec_shake256;
use crate::scalar::{enc, is_scalar};

verus! {

broadcast use crate::scalar::lemma_enc;

/// A transcript.
pub struct Transcript {
    absorbed: Vec<u8>,
}

/// A length prefix: the length as a little-endian `u64`.
pub open spec fn len_prefix(s: Seq<u8>) -> Seq<u8> {
    vstd::bytes::spec_u64_to_le_bytes(s.len() as u64)
}

impl View for Transcript {
    type V = Seq<u8>;

    /// Every byte fed to the hash so far.
    closed spec fn view(&self) -> Seq<u8> {
        self.absorbed@
    }
}

/// The 64 bytes squeezed after feeding `state`, `"challenge:"` and the label.
pub open spec fn challenge_bytes(state: Seq<u8>, label: Seq<u8>) -> Seq<u8> {
    spec_shake256(state + "challenge:".spec_bytes() + label, 64)
}

impl Transcript {
    /// A transcript for a domain.
    pub fn new(domain: &[u8]) -> (t: Self)
        ensures
            t@ == "specter-transcript:".spec_bytes() + domain@,
    {
        let mut absorbed: Vec<u8> = Vec::new();
        crate::bytes::append_bytes(&mut absorbed, "specter-transcript:".as_bytes());
        crate::bytes::append_bytes(&mut absorbed, domain);
        Transcript { absorbed }
    }

    /// Absorbs labelled data; label and data are each length-prefixed.
    pub fn absorb(&mut self, label: &[u8], data: &[u8])
        requires
            label@.len() <= u64::MAX,
            data@.len() <= u64::MAX,
        ensures
            final(self)@ == old(self)@ + len_prefix(label@) + label@ + len_prefix(data@) + data@,
    {
        let ll = vstd::bytes::u64_to_le_bytes(label.len() as u64);
        crate::bytes::append_bytes(&mut self.absorbed, ll.as_slice());
        crate::bytes::append_bytes(&mut self.absorbed, label);
        let dl = vstd::bytes::u64_to_le_bytes(data.len() as u64);
        crate::bytes::append_bytes(&mut self.absorbed, dl.as_slice());
        crate::bytes::append_bytes(&mut self.absorbed, data);
    }

    /// Squeezes a challenge scalar: 64 bytes over everything absorbed,
    /// `"challenge:"` and the label, reduced mod ℓ. The 64 bytes are then
    /// absorbed too, so later challenges depend on this one.
    pub fn challenge(&mut self, label: &[u8]) -> (c: [u8; 32])
        ensures
            is_scalar(c),
            c@ == enc(le_nat(challenge_bytes(old(self)@, label@)) as int),
            final(self)@ == old(self)@ + "challenge:".spec_bytes() + label@ + challenge_bytes(old(self)@, label@),
    {
        crate::bytes::append_bytes(&mut self.absorbed, "challenge:".as_bytes());
        crate::bytes::append_bytes(&mut self.absorbed, label);
        let wide_vec = crate::hashing::shake256(self.absorbed.as_slice(), 64);
        let wide = crate::bytes::to_array64(wide_vec.as_slice());
        crate::bytes::append_bytes(&mut self.absorbed, &wide);
        crate::group::scalar_from_digest(&wide)
    }

    /// Squeezes `output.len()` bytes over everything absorbed,
    /// `"squeeze:"` and the label, and absorbs them.
    pub fn squeeze_bytes(&mut self, label: &[u8], output: &mut [u8])
        ensures
            final(output)@.len() == old(output)@.len(),
            final(output)@ == spec_shake256(old(self)@ + "squeeze:".spec_bytes() + label@, old(output)@.len()),
            final(self)@ == old(self)@ + "squeeze:".spec_bytes() + label@ + final(output)@,
    {
        crate::bytes::append_bytes(&mut self.absorbed, "squeeze:".as_bytes());
        crate::bytes::append_bytes(&mut self.absorbed, label);
        let out = crate::hashing::shake256(self.absorbed.as_slice(), output.len());
        let mut i: usize = 0;
        while i < output.len()
            invariant
                0 <= i <= output@.len(),
                output@.len() == old(output)@.len(),
                out@.len() == output@.len(),
                forall|j: int| 0 <= j < i ==> output@[j] == out@[j],
            decreases output@.len() - i,
        {
            output[i] = out[i];
            i = i + 1;
        }
        assert(output@ =~= out@);
        crate::bytes::append_bytes(&mut self.absorbed, output);
    }
}

} // verus!
