//! Pedersen commitments over Ristretto255: `C = v·G + r·H` with two
//! generators whose discrete-log relation nobody knows, and vector
//! commitments `C = Σ vᵢ·Gᵢ + r·H`.

use vstd::prelude::*;
use vstd::string::*;
use crate::hashing::spec_sha512;
use crate::scalar::is_scalar;
use crate::group::{ristretto_valid, spec_point_from_uniform, spec_multiscalar_mul};

verus! {

/// The group element a label hashes to: the Elligator map of the label's
/// SHA-512 digest.
pub open spec fn hash_to_point(label: Seq<u8>) -> Seq<u8> {
    spec_point_from_uniform(spec_sha512(label))
}

/// The generator `G`.
pub open spec fn generator_g() -> Seq<u8> {
    hash_to_point("specter-pedersen-generator-G".spec_bytes())
}

/// The generator `H`.
pub open spec fn generator_h() -> Seq<u8> {
    hash_to_point("specter-pedersen-generator-H".spec_bytes())
}

/// The decimal digits of `n` in ASCII.
pub open spec fn decimal(n: nat) -> Seq<u8>
    decreases n,
{
    if n < 10 {
        seq![(48 + n) as u8]
    } else {
        decimal(n / 10).push((48 + n % 10) as u8)
    }
}

/// The generator for position `i` of a vector commitment.
pub open spec fn vector_generator(i: nat) -> Seq<u8> {
    hash_to_point("specter-pedersen-vector-G-".spec_bytes() + decimal(i))
}

/// The two generators.
#[derive(Clone, Copy, Debug)]
pub struct PedersenParams {
    pub g: [u8; 32],
    pub h: [u8; 32],
}

/// The decimal digits of `n`.
pub fn decimal_bytes(n: usize) -> (v: Vec<u8>)
    ensures
        v@ == decimal(n as nat),
    decreases n,
{
    if n < 10 {
        let mut v: Vec<u8> = Vec::new();
        v.push((48 + n) as u8);
        v
    } else {
        let mut v = decimal_bytes(n / 10);
        v.push((48 + n % 10) as u8);
        v
    }
}

/// Hashes a label to a group element.
fn hash_label_to_point(label: &[u8]) -> (p: [u8; 32])
    ensures
        p@ == hash_to_point(label@),
        ristretto_valid(p@),
{
    let d = crate::hashing::sha512(label);
    crate::group::point_from_uniform(&d)
}

/// The generator for position `i` of a vector commitment.
pub fn generator(i: usize) -> (g: [u8; 32])
    ensures
        g@ == vector_generator(i as nat),
        ristretto_valid(g@),
{
    let mut label: Vec<u8> = Vec::new();
    crate::bytes::append_bytes(&mut label, "specter-pedersen-vector-G-".as_bytes());
    let digits = decimal_bytes(i);
    crate::bytes::append_bytes(&mut label, digits.as_slice());
    hash_label_to_point(label.as_slice())
}

impl PedersenParams {
    /// Both generators are group elements.
    pub open spec fn wf(&self) -> bool {
        ristretto_valid(self.g@) && ristretto_valid(self.h@)
    }

    /// The standard generators.
    pub fn new() -> (p: Self)
        ensures
            p.wf(),
            p.g@ == generator_g(),
            p.h@ == generator_h(),
    {
        let g = hash_label_to_point("specter-pedersen-generator-G".as_bytes());
        let h = hash_label_to_point("specter-pedersen-generator-H".as_bytes());
        PedersenParams { g, h }
    }

    /// The commitment `value·G + blinding·H`.
    pub open spec fn spec_commit(&self, value: [u8; 32], blinding: [u8; 32]) -> Seq<u8> {
        spec_multiscalar_mul(seq![value, blinding], seq![self.g@, self.h@])
    }

    /// Commits to `value` with `blinding`.
    pub fn commit(&self, value: &[u8; 32], blinding: &[u8; 32]) -> (c: [u8; 32])
        requires
            self.wf(),
            is_scalar(*value),
            is_scalar(*blinding),
        ensures
            c@ == self.spec_commit(*value, *blinding),
            ristretto_valid(c@),
    {
        let ks: Vec<[u8; 32]> = vec![*value, *blinding];
        let ps: Vec<[u8; 32]> = vec![self.g, self.h];
        let c = crate::group::multiscalar_mul(ks.as_slice(), ps.as_slice());
        assert(ks@ =~= seq![*value, *blinding]);
        assert(ps@.map_values(|p: [u8; 32]| p@) =~= seq![self.g@, self.h@]);
        c
    }

    /// Whether `commitment` opens to `value` and `blinding`.
    pub fn verify_opening(&self, commitment: &[u8; 32], value: &[u8; 32], blinding: &[u8; 32]) -> (ok: bool)
        requires
            self.wf(),
            is_scalar(*value),
            is_scalar(*blinding),
        ensures
            ok == (commitment@ == self.spec_commit(*value, *blinding)),
    {
        let expected = self.commit(value, blinding);
        crate::bytes::bytes32_eq(commitment, &expected)
    }

    /// The vector commitment `Σ values[i]·Gᵢ + blinding·H`.
    pub open spec fn spec_commit_vector(&self, values: Seq<[u8; 32]>, blinding: [u8; 32]) -> Seq<u8> {
        spec_multiscalar_mul(values.push(blinding), Seq::new(values.len(), |i: int| vector_generator(i as nat)).push(self.h@))
    }

    /// The discrete log of the vector commitment, before reduction:
    /// `Σ values[i]·dlog(Gᵢ) + blinding·dlog(H)`.
    pub open spec fn commit_vector_dlog(&self, values: Seq<[u8; 32]>, blinding: [u8; 32]) -> int {
        crate::group::msm_dlog(values.push(blinding),
            Seq::new(values.len(), |i: int| vector_generator(i as nat)).push(self.h@), values.len() as int + 1)
    }

    /// Commits to a vector of scalars with one blinding factor.
    pub fn commit_vector(&self, values: &[[u8; 32]], blinding: &[u8; 32]) -> (c: [u8; 32])
        requires
            self.wf(),
            forall|i: int| 0 <= i < values@.len() ==> is_scalar(#[trigger] values@[i]),
            is_scalar(*blinding),
        ensures
            c@ == self.spec_commit_vector(values@, *blinding),
            ristretto_valid(c@),
            crate::group::encodes(c@, self.commit_vector_dlog(values@, *blinding) % (crate::scalar::group_order() as int)),
    {
        let mut scalars: Vec<[u8; 32]> = Vec::new();
        let mut points: Vec<[u8; 32]> = Vec::new();
        let mut i: usize = 0;
        while i < values.len()
            invariant
                0 <= i <= values@.len(),
                scalars@ == values@.take(i as int),
                points@.len() == i,
                forall|j: int| 0 <= j < i ==> (#[trigger] points@[j])@ == vector_generator(j as nat),
                forall|j: int| 0 <= j < i ==> ristretto_valid((#[trigger] points@[j])@),
            decreases values@.len() - i,
        {
            points.push(generator(i));
            scalars.push(values[i]);
            assert(scalars@ =~= values@.take(i + 1));
            i = i + 1;
        }
        scalars.push(*blinding);
        points.push(self.h);
        assert(values@.take(values@.len() as int) =~= values@);
        assert(points@.map_values(|p: [u8; 32]| p@)
            =~= Seq::new(values@.len(), |j: int| vector_generator(j as nat)).push(self.h@));
        crate::group::multiscalar_mul(scalars.as_slice(), points.as_slice())
    }
}

} // verus!
