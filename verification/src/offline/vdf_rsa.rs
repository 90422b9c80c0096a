//! A verifiable delay function in an RSA group (Wesolowski): `T`
//! sequential squarings `y = x^(2^T) mod N`, and a proof
//! `π = x^⌊2^T / l⌋ mod N` for a prime challenge `l`, checked as
//! `π^l · x^(2^T mod l) ≡ y`.
//!
//! Big integers are held as big-endian byte strings; the arithmetic is
//! `num-bigint`'s.

use vstd::prelude::*;
use vstd::string::*;
use vstd::arithmetic::power::{pow, lemma_square_is_pow2, lemma_pow0, lemma_pow1, lemma_pow_adds, lemma_pow_positive, lemma_pow_multiplies, lemma_pow_mod_noop};
use vstd::arithmetic::div_mod::{lemma_mod_bound, lemma_fundamental_div_mod, lemma_fundamental_div_mod_converse, lemma_mul_mod_noop_general, lemma_mul_mod_noop_left};
use vstd::arithmetic::power2::{pow2, lemma2_to64, lemma_pow2_adds, lemma_pow2_unfold, lemma_pow2_strictly_increases};
use num_bigint::BigUint;
use num_integer::Integer;
use crate::hashing::spec_sha256;

verus! {

/// The natural number a big-endian byte string denotes.
pub open spec fn be_nat(s: Seq<u8>) -> nat
    decreases s.len(),
{
    if s.len() == 0 {
        0
    } else {
        be_nat(s.drop_last()) * 256 + s.last() as nat
    }
}

/// The shortest big-endian encoding of `n` (one zero byte for zero), as
/// `BigUint::to_bytes_be` gives it.
pub open spec fn be_bytes(n: nat) -> Seq<u8>
    decreases n,
{
    if n < 256 {
        seq![n as u8]
    } else {
        be_bytes(n / 256).push((n % 256) as u8)
    }
}

/// Decoding an encoding gives the number back.
pub proof fn lemma_be_roundtrip(n: nat)
    ensures
        be_nat(be_bytes(n)) == n,
    decreases n,
{
    if n >= 256 {
        lemma_be_roundtrip(n / 256);
        assert(be_bytes(n).drop_last() =~= be_bytes(n / 256));
        assert(be_bytes(n).last() == (n % 256) as u8);
        assert(((n % 256) as u8) as nat == n % 256);
        assert((n / 256) * 256 + n % 256 == n);
        assert(be_nat(be_bytes(n)) == be_nat(be_bytes(n).drop_last()) * 256 + be_bytes(n).last() as nat);
    } else {
        assert(seq![n as u8].drop_last() =~= Seq::<u8>::empty());
        assert(be_bytes(n).last() == n as u8);
        assert((n as u8) as nat == n);
        assert(be_nat(Seq::<u8>::empty()) == 0);
        assert(be_nat(be_bytes(n)) == be_nat(be_bytes(n).drop_last()) * 256 + be_bytes(n).last() as nat);
    }
}

/// Calls `BigUint * BigUint` on the decoded operands.
#[verifier::external_body]
fn big_mul(a: &[u8], b: &[u8]) -> (r: Vec<u8>)
    ensures
        r@ == be_bytes(be_nat(a@) * be_nat(b@)),
{
    (BigUint::from_bytes_be(a) * BigUint::from_bytes_be(b)).to_bytes_be()
}

/// Calls `BigUint % BigUint`; panics on a zero divisor, so `requires` one.
#[verifier::external_body]
fn big_rem(a: &[u8], m: &[u8]) -> (r: Vec<u8>)
    requires
        be_nat(m@) > 0,
    ensures
        r@ == be_bytes(be_nat(a@) % be_nat(m@)),
{
    (BigUint::from_bytes_be(a) % BigUint::from_bytes_be(m)).to_bytes_be()
}

/// Calls `BigUint / BigUint`; panics on a zero divisor, so `requires` one.
#[verifier::external_body]
fn big_div(a: &[u8], m: &[u8]) -> (r: Vec<u8>)
    requires
        be_nat(m@) > 0,
    ensures
        r@ == be_bytes(be_nat(a@) / be_nat(m@)),
{
    (BigUint::from_bytes_be(a) / BigUint::from_bytes_be(m)).to_bytes_be()
}

/// Calls `BigUint + BigUint`.
#[verifier::external_body]
fn big_add(a: &[u8], b: &[u8]) -> (r: Vec<u8>)
    ensures
        r@ == be_bytes(be_nat(a@) + be_nat(b@)),
{
    (BigUint::from_bytes_be(a) + BigUint::from_bytes_be(b)).to_bytes_be()
}

/// Calls `BigUint - BigUint`; panics when the result would be negative.
#[verifier::external_body]
fn big_sub(a: &[u8], b: &[u8]) -> (r: Vec<u8>)
    requires
        be_nat(a@) >= be_nat(b@),
    ensures
        r@ == be_bytes((be_nat(a@) - be_nat(b@)) as nat),
{
    (BigUint::from_bytes_be(a) - BigUint::from_bytes_be(b)).to_bytes_be()
}

/// Calls `BigUint::modpow`, documented as `(self ^ exponent) % modulus`;
/// it panics on a zero modulus, so `requires` a nonzero one.
#[verifier::external_body]
fn big_modpow(base: &[u8], exp: &[u8], m: &[u8]) -> (r: Vec<u8>)
    requires
        be_nat(m@) > 0,
    ensures
        r@ == be_bytes((pow(be_nat(base@) as int, be_nat(exp@)) % (be_nat(m@) as int)) as nat),
{
    BigUint::from_bytes_be(base).modpow(&BigUint::from_bytes_be(exp), &BigUint::from_bytes_be(m)).to_bytes_be()
}

/// Calls `BigUint::from(u64)`.
#[verifier::external_body]
fn big_from_u64(v: u64) -> (r: Vec<u8>)
    ensures
        r@ == be_bytes(v as nat),
{
    BigUint::from(v).to_bytes_be()
}

/// Calls `BigUint::from_bytes_be` and `to_bytes_be`: the shortest
/// encoding of the same number.
#[verifier::external_body]
fn big_normalize(a: &[u8]) -> (r: Vec<u8>)
    ensures
        r@ == be_bytes(be_nat(a@)),
{
    BigUint::from_bytes_be(a).to_bytes_be()
}

/// Calls `num_integer::Integer::is_even`.
#[verifier::external_body]
fn big_is_even(a: &[u8]) -> (r: bool)
    ensures
        r == (be_nat(a@) % 2 == 0),
{
    BigUint::from_bytes_be(a).is_even()
}

/// Calls `BigUint < BigUint`.
#[verifier::external_body]
fn big_lt(a: &[u8], b: &[u8]) -> (r: bool)
    ensures
        r == (be_nat(a@) < be_nat(b@)),
{
    BigUint::from_bytes_be(a) < BigUint::from_bytes_be(b)
}

/// Calls `BigUint == BigUint`.
#[verifier::external_body]
fn big_eq(a: &[u8], b: &[u8]) -> (r: bool)
    ensures
        r == (be_nat(a@) == be_nat(b@)),
{
    BigUint::from_bytes_be(a) == BigUint::from_bytes_be(b)
}

/// Calls `BigUint >> 1`.
#[verifier::external_body]
fn big_shr1(a: &[u8]) -> (r: Vec<u8>)
    ensures
        r@ == be_bytes(be_nat(a@) / 2),
{
    (BigUint::from_bytes_be(a) >> 1usize).to_bytes_be()
}

/// The RSA-2048 challenge number, big-endian.
pub const RSA_2048_MODULUS: [u8; 256] = [
    0xc7, 0x97, 0x0c, 0xee, 0xdc, 0xc3, 0xb0, 0x75, 0x44, 0x90, 0x20, 0x1a, 0x7a, 0xa6, 0x13, 0xcd,
    0x73, 0x91, 0x10, 0x81, 0xc7, 0x90, 0xf5, 0xf1, 0xa8, 0x72, 0x6f, 0x46, 0x35, 0x50, 0xbb, 0x5b,
    0x7f, 0xf0, 0xdb, 0x8e, 0x1e, 0xa1, 0x18, 0x9e, 0xc7, 0x2f, 0x93, 0xd1, 0x65, 0x00, 0x11, 0xbd,
    0x72, 0x1a, 0xee, 0xac, 0xc2, 0xac, 0xde, 0x32, 0xa0, 0x41, 0x07, 0xf0, 0x64, 0x8c, 0x28, 0x13,
    0xa3, 0x1f, 0x5b, 0x0b, 0x77, 0x65, 0xff, 0x46, 0x63, 0x99, 0x2c, 0x14, 0x13, 0x5c, 0x5a, 0x7a,
    0x1a, 0xb4, 0xee, 0x3c, 0x2c, 0x97, 0xf8, 0x9d, 0x3d, 0xb3, 0xfe, 0xcf, 0x1f, 0xd5, 0x54, 0xeb,
    0x52, 0x1f, 0x94, 0xcd, 0x10, 0xa1, 0xe7, 0x4d, 0xe1, 0x31, 0x51, 0x4a, 0x68, 0x08, 0xc6, 0xda,
    0xd0, 0x92, 0x52, 0x95, 0x5d, 0x98, 0x32, 0x89, 0xaf, 0x18, 0x5c, 0xe4, 0x0a, 0x70, 0x25, 0xb6,
    0x84, 0xe6, 0x22, 0x33, 0x89, 0xc6, 0x39, 0xe6, 0x59, 0xe9, 0x02, 0x81, 0x13, 0xf8, 0x15, 0xab,
    0x80, 0x27, 0xb5, 0x76, 0xbd, 0x96, 0x1b, 0x2e, 0x10, 0x6c, 0x45, 0xdb, 0x6c, 0x0c, 0x15, 0xbf,
    0x94, 0x5b, 0xbe, 0xa1, 0xc3, 0x23, 0xb1, 0x7d, 0xb5, 0x46, 0x42, 0x6b, 0x75, 0x68, 0x1b, 0x2c,
    0x0a, 0xb2, 0x11, 0xe1, 0x3b, 0x38, 0xf4, 0xf6, 0x37, 0xf1, 0xab, 0xd4, 0x18, 0xe1, 0x5d, 0xb3,
    0xb2, 0x5d, 0x98, 0x84, 0xea, 0x4d, 0x8a, 0xa7, 0xeb, 0x49, 0xca, 0x77, 0xd2, 0x8d, 0x7d, 0x27,
    0x1c, 0xc7, 0xeb, 0x5a, 0xd7, 0xfa, 0xbb, 0xce, 0xb0, 0x77, 0x36, 0x6c, 0x0c, 0x7c, 0x5f, 0x43,
    0xf3, 0x95, 0x5c, 0xd2, 0xe7, 0x94, 0x03, 0x5f, 0xf9, 0xe9, 0xbd, 0x23, 0x4f, 0xd1, 0x71, 0x08,
    0x04, 0x7b, 0x32, 0x10, 0xef, 0xad, 0x58, 0xde, 0x40, 0x24, 0xd7, 0xbe, 0x1d, 0x1f, 0xce, 0xfa,
];

/// The modulus and its size.
pub struct RsaVdfParams {
    /// The RSA modulus `N`, big-endian.
    pub modulus: Vec<u8>,
    /// Its size in bits.
    pub bits: u32,
}

/// An evaluation and its proof.
#[derive(Clone, Debug)]
pub struct RsaVdfProof {
    pub input: Vec<u8>,
    /// `y = x^(2^T) mod N`.
    pub output: Vec<u8>,
    /// `T`, the number of squarings.
    pub iterations: u64,
    /// `π`.
    pub proof_pi: Vec<u8>,
    /// The challenge prime `l`.
    pub challenge_l: Vec<u8>,
}

impl RsaVdfParams {
    /// The RSA-2048 challenge modulus, whose factors nobody knows.
    pub fn default_2048() -> (p: Self)
        ensures
            p.modulus@ == RSA_2048_MODULUS@,
            p.bits == 2048,
    {
        let mut modulus: Vec<u8> = Vec::new();
        crate::bytes::append_bytes(&mut modulus, &RSA_2048_MODULUS);
        RsaVdfParams { modulus, bits: 2048 }
    }

    /// A small modulus for tests: `104729 · 104723`, whose factors are
    /// known, so it gives no delay.
    pub fn small_test() -> (p: Self)
        ensures
            be_nat(p.modulus@) == 104729 * 104723,
            p.bits == 34,
    {
        let p = big_from_u64(104729);
        let q = big_from_u64(104723);
        let modulus = big_mul(p.as_slice(), q.as_slice());
        proof {
            lemma_be_roundtrip(104729);
            lemma_be_roundtrip(104723);
            lemma_be_roundtrip(104729 * 104723);
        }
        RsaVdfParams { modulus, bits: 34 }
    }
}

/// `x` squared `t` times modulo `n` (`x` itself when `t = 0`).
pub open spec fn sq_iter(x: nat, t: nat, n: nat) -> nat
    decreases t,
{
    if t == 0 {
        x
    } else {
        (sq_iter(x, (t - 1) as nat, n) * sq_iter(x, (t - 1) as nat, n)) % n
    }
}

/// The state `(π, r)` of the proof computation after `t` steps of long
/// division of `2^t` by `l`: `r` is doubled and reduced, `π` squared, and
/// multiplied by `x` when the quotient bit is 1.
pub open spec fn wes_state(x: nat, t: nat, l: nat, n: nat) -> (nat, nat)
    decreases t,
{
    if t == 0 {
        (1, 1)
    } else {
        let (pi, r) = wes_state(x, (t - 1) as nat, l, n);
        let pi2 = (pi * pi) % n;
        let pi3 = if (2 * r) / l == 1 { (pi2 * x) % n } else { pi2 };
        (pi3, (2 * r) % l)
    }
}

/// The witnesses, in order.
pub open spec fn witnesses() -> Seq<u64> {
    seq![2, 3, 5, 7, 11, 13, 17, 19, 23, 29, 31, 37, 41, 43, 47, 53, 59, 61, 67, 71, 73, 79, 83, 89]
}

/// `m = d·2^r` with `d` odd (for `m > 0`).
pub open spec fn split_pow2(m: nat) -> (nat, nat)
    decreases m,
{
    if m == 0 || m % 2 == 1 {
        (m, 0)
    } else {
        let (d, r) = split_pow2(m / 2);
        (d, r + 1)
    }
}

/// Whether the witness `a` does not show `n` composite: `a^d ≡ ±1`, or one
/// of the next `r − 1` squarings is `n − 1`.
pub open spec fn witness_passes(n: nat, a: nat, d: nat, r: nat) -> bool {
    let x0 = (pow(a as int, d) % (n as int)) as nat;
    ||| x0 == 1
    ||| x0 == n - 1
    ||| exists|j: nat| 1 <= j < r && #[trigger] sq_iter(x0, j, n) == n - 1
}

/// The Miller-Rabin test with the first `rounds` witnesses (witnesses not
/// below `n` are skipped).
pub open spec fn mr_spec(n: nat, rounds: nat) -> bool {
    if n < 2 {
        false
    } else if n == 2 || n == 3 {
        true
    } else if n % 2 == 0 {
        false
    } else {
        let (d, r) = split_pow2((n - 1) as nat);
        forall|k: int| 0 <= k < rounds && k < 24 ==>
            (#[trigger] witnesses()[k]) >= n || witness_passes(n, witnesses()[k] as nat, d, r)
    }
}

/// The first probable prime among `c, c + 2, …` within `fuel` steps, or
/// where the search stops.
pub open spec fn prime_search(c: nat, fuel: nat) -> nat
    decreases fuel,
{
    if fuel == 0 || mr_spec(c, 20) {
        c
    } else {
        prime_search(c + 2, (fuel - 1) as nat)
    }
}

/// The next probable prime from `n` (odd numbers only).
pub open spec fn spec_next_prime(n: nat) -> nat {
    let c = if n % 2 == 0 { n + 1 } else { n };
    prime_search(c, u64::MAX as nat)
}

/// The bytes hashed into the challenge.
pub open spec fn challenge_input(input: nat, output: nat, iterations: u64) -> Seq<u8> {
    "specter-vdf-challenge:".spec_bytes() + be_bytes(input) + be_bytes(output) + vstd::bytes::spec_u64_to_le_bytes(iterations)
}

/// The challenge candidate: the first 16 bytes of the hash, with the low
/// bit set.
pub open spec fn challenge_candidate(input: nat, output: nat, iterations: u64) -> nat {
    let h = spec_sha256(challenge_input(input, output, iterations)).subrange(0, 16);
    be_nat(h.update(15, h[15] | 1u8))
}

/// The challenge prime `l`.
pub open spec fn spec_challenge(input: nat, output: nat, iterations: u64) -> nat {
    spec_next_prime(challenge_candidate(input, output, iterations))
}

/// Whether a proof verifies under the modulus `n`.
pub open spec fn rsa_proof_valid(n: nat, p: RsaVdfProof) -> bool {
    let x = be_nat(p.input@);
    let y = be_nat(p.output@);
    let l = spec_challenge(x, y, p.iterations);
    let r = (pow(2, p.iterations as nat) % (l as int)) as nat;
    let lhs = ((pow(be_nat(p.proof_pi@) as int, l) % (n as int)) * (pow(x as int, r) % (n as int))) % (n as int);
    &&& l == be_nat(p.challenge_l@)
    &&& lhs == y
}

fn is_one(a: &[u8]) -> (r: bool)
    ensures
        r == (be_nat(a@) == 1),
{
    let one = big_from_u64(1);
    proof { lemma_be_roundtrip(1); }
    big_eq(a, one.as_slice())
}

/// Whether a big-endian byte string denotes zero.
pub(crate) fn is_zero(a: &[u8]) -> (r: bool)
    ensures
        r == (be_nat(a@) == 0),
{
    let zero = big_from_u64(0);
    proof { lemma_be_roundtrip(0); }
    big_eq(a, zero.as_slice())
}

/// A number below `256^len` fits in `len` bytes.
proof fn lemma_be_nat_bound(s: Seq<u8>)
    ensures
        be_nat(s) < pow2(8 * s.len()),
    decreases s.len(),
{
    if s.len() == 0 {
        lemma2_to64();
    } else {
        lemma_be_nat_bound(s.drop_last());
        let k: nat = (8 * (s.len() - 1)) as nat;
        lemma_pow2_adds(k, 8);
        lemma2_to64();
        assert(8 * s.len() == k + 8);
        let a = be_nat(s.drop_last());
        assert(a * 256 + (s.last() as nat) < pow2(k) * 256) by (nonlinear_arith)
            requires a < pow2(k), s.last() < 256;
    }
}

/// `split_pow2` writes `m` as `d·2^r`.
proof fn lemma_split_pow2(m: nat)
    ensures
        split_pow2(m).0 * pow2(split_pow2(m).1) == m,
        m > 0 ==> split_pow2(m).0 % 2 == 1,
    decreases m,
{
    if m == 0 || m % 2 == 1 {
        lemma2_to64();
        assert(split_pow2(m) == (m, 0nat));
        assert(m * 1 == m);
    } else {
        lemma_split_pow2(m / 2);
        let (d, r) = split_pow2(m / 2);
        assert(split_pow2(m) == (d, r + 1));
        lemma_pow2_unfold(r + 1);
        assert(d * (2 * pow2(r)) == 2 * (d * pow2(r))) by (nonlinear_arith);
        assert(2 * (m / 2) == m);
        assert(m / 2 > 0);
    }
}

/// One Miller-Rabin round for the odd `n ≥ 5` with `n − 1 = d·2^r`:
/// whether the witness `a` lets `n` pass.
fn witness_round(n: &[u8], n_minus_1: &[u8], a: &[u8], d: &[u8], r: u32) -> (pass: bool)
    requires
        be_nat(n@) >= 5,
        be_nat(n_minus_1@) == be_nat(n@) - 1,
    ensures
        pass == witness_passes(be_nat(n@), be_nat(a@), be_nat(d@), r as nat),
{
    let ghost nn = be_nat(n@);
    let ghost x0 = (pow(be_nat(a@) as int, be_nat(d@)) % (nn as int)) as nat;
    let mut x = big_modpow(a, d, n);
    proof { lemma_be_roundtrip(x0); }
    if is_one(x.as_slice()) || big_eq(x.as_slice(), n_minus_1) {
        return true;
    }
    let two = big_from_u64(2);
    proof { lemma_be_roundtrip(2); }
    let mut j: u32 = 1;
    while j < r
        invariant
            1 <= j,
            r < 1 || j <= r,
            be_nat(n@) == nn,
            nn >= 5,
            be_nat(n_minus_1@) == nn - 1,
            be_nat(two@) == 2,
            x0 != 1,
            x0 != nn - 1,
            x0 == (pow(be_nat(a@) as int, be_nat(d@)) % (nn as int)) as nat,
            be_nat(x@) == sq_iter(x0, (j - 1) as nat, nn),
            forall|jj: nat| 1 <= jj < j ==> #[trigger] sq_iter(x0, jj, nn) != nn - 1,
        decreases r - j,
    {
        let ghost prev = be_nat(x@);
        x = big_modpow(x.as_slice(), two.as_slice(), n);
        proof {
            lemma_square_is_pow2(prev as int);
            lemma_be_roundtrip(((prev * prev) % nn) as nat);
            assert(sq_iter(x0, j as nat, nn) == (prev * prev) % nn);
        }
        if big_eq(x.as_slice(), n_minus_1) {
            assert(sq_iter(x0, j as nat, nn) == nn - 1);
            assert(x0 == (pow(be_nat(a@) as int, be_nat(d@)) % (be_nat(n@) as int)) as nat);
            assert(exists|jj: nat| 1 <= jj < r && #[trigger] sq_iter(x0, jj, nn) == nn - 1);
            return true;
        }
        j = j + 1;
    }
    proof {
        assert forall|jj: nat| 1 <= jj < r implies #[trigger] sq_iter(x0, jj, nn) != nn - 1 by {
            assert(jj < j);
        }
    }
    false
}

/// The Miller-Rabin probable-prime test with the first `rounds` of the
/// fixed witnesses. The bound on `n` keeps the count of halvings of
/// `n − 1` within a `u32`.
pub fn is_probably_prime_miller_rabin(n: &[u8], rounds: u32) -> (r: bool)
    requires
        be_nat(n@) < pow2(0x8000_0000),
    ensures
        r == mr_spec(be_nat(n@), rounds as nat),
{
    proof {
        lemma_be_roundtrip(1);
        lemma_be_roundtrip(2);
        lemma_be_roundtrip(3);
    }
    let one = big_from_u64(1);
    let two = big_from_u64(2);
    let three = big_from_u64(3);
    if big_lt(n, two.as_slice()) {
        return false;
    }
    if big_eq(n, two.as_slice()) || big_eq(n, three.as_slice()) {
        return true;
    }
    if big_is_even(n) {
        return false;
    }
    let ghost nn = be_nat(n@);
    let n_minus_1 = big_sub(n, one.as_slice());
    proof { lemma_be_roundtrip((nn - 1) as nat); }
    let mut d = big_normalize(n_minus_1.as_slice());
    let mut r: u32 = 0;
    proof {
        lemma_be_roundtrip((nn - 1) as nat);
        lemma_split_pow2((nn - 1) as nat);
        lemma2_to64();
    }
    while big_is_even(d.as_slice())
        invariant
            nn >= 5,
            nn == be_nat(n@),
            nn < pow2(0x8000_0000),
            be_nat(d@) > 0,
            be_nat(d@) * pow2(r as nat) == nn - 1,
            r < 0x8000_0000,
            split_pow2((nn - 1) as nat) == (split_pow2(be_nat(d@)).0, (split_pow2(be_nat(d@)).1 + r) as nat),
        decreases be_nat(d@),
    {
        let ghost before = be_nat(d@);
        d = big_shr1(d.as_slice());
        proof {
            lemma_be_roundtrip(before / 2);
            lemma_pow2_unfold(r as nat + 1);
            assert((before / 2) * (2 * pow2(r as nat)) == before * pow2(r as nat)) by (nonlinear_arith)
                requires before % 2 == 0;
            if r as nat + 1 >= 0x8000_0000 {
                if r as nat + 1 > 0x8000_0000 {
                    lemma_pow2_strictly_increases(0x8000_0000, r as nat + 1);
                }
                assert(be_nat(d@) * pow2(r as nat + 1) >= pow2(r as nat + 1)) by (nonlinear_arith)
                    requires be_nat(d@) >= 1;
                assert(false);
            }
        }
        r = r + 1;
    }
    proof {
        lemma_split_pow2(be_nat(d@));
        assert(split_pow2(be_nat(d@)) == (be_nat(d@), 0nat));
    }
    let wl: [u64; 24] = [2, 3, 5, 7, 11, 13, 17, 19, 23, 29, 31, 37, 41, 43, 47, 53, 59, 61, 67, 71, 73, 79, 83, 89];
    assert(wl@ =~= witnesses());
    let limit: usize = if (rounds as usize) < 24 { rounds as usize } else { 24 };
    let mut k: usize = 0;
    while k < limit
        invariant
            limit <= 24,
            limit <= rounds,
            limit == rounds || limit == 24,
            wl@ == witnesses(),
            0 <= k <= limit,
            nn >= 5,
            nn == be_nat(n@),
            be_nat(n_minus_1@) == nn - 1,
            split_pow2((nn - 1) as nat) == (be_nat(d@), r as nat),
            forall|q: int| 0 <= q < k ==>
                (#[trigger] witnesses()[q]) >= nn || witness_passes(nn, witnesses()[q] as nat, be_nat(d@), r as nat),
        decreases limit - k,
    {
        let a = big_from_u64(wl[k]);
        proof { lemma_be_roundtrip(wl[k as int] as nat); }
        if big_lt(a.as_slice(), n) {
            if !witness_round(n, n_minus_1.as_slice(), a.as_slice(), d.as_slice(), r) {
                assert(!((witnesses()[k as int]) >= nn || witness_passes(nn, witnesses()[k as int] as nat, be_nat(d@), r as nat)));
                return false;
            }
        }
        k = k + 1;
    }
    true
}

/// The search never goes below where it starts.
proof fn lemma_prime_search_ge(c: nat, fuel: nat)
    ensures
        prime_search(c, fuel) >= c,
    decreases fuel,
{
    if fuel > 0 && !mr_spec(c, 20) {
        lemma_prime_search_ge(c + 2, (fuel - 1) as nat);
    }
}

/// Numbers below `2^129` are far below the Miller-Rabin bound.
proof fn lemma_small_in_range(v: nat)
    requires
        v <= pow2(128) + 0x4_0000_0000_0000_0000,
    ensures
        v < pow2(0x8000_0000),
{
    lemma2_to64();
    lemma_pow2_adds(64, 64);
    lemma_pow2_unfold(129);
    lemma_pow2_strictly_increases(129, 0x8000_0000);
    let p = pow2(64);
    assert(p * p > 2 * 0x4_0000_0000_0000_0000) by (nonlinear_arith)
        requires p == 0x1_0000_0000_0000_0000nat;
}

/// The first probable prime among the odd numbers from `n` (from `n + 1`
/// when `n` is even).
fn next_prime(n: &[u8]) -> (p: Vec<u8>)
    requires
        be_nat(n@) < pow2(128),
    ensures
        p@ == be_bytes(spec_next_prime(be_nat(n@))),
{
    let ghost nn = be_nat(n@);
    proof {
        lemma_be_roundtrip(1);
        lemma_be_roundtrip(2);
    }
    let one = big_from_u64(1);
    let two = big_from_u64(2);
    let mut cand = if big_is_even(n) {
        big_add(n, one.as_slice())
    } else {
        big_normalize(n)
    };
    let ghost c0: nat = if nn % 2 == 0 { nn + 1 } else { nn };
    proof { lemma_be_roundtrip(c0); }
    let mut fuel: u64 = u64::MAX;
    loop
        invariant
            c0 <= pow2(128),
            nn == be_nat(n@),
            c0 == if nn % 2 == 0 { nn + 1 } else { nn },
            be_nat(two@) == 2,
            be_nat(cand@) == c0 + 2 * (u64::MAX - fuel),
            cand@ == be_bytes(be_nat(cand@)),
            prime_search(c0, u64::MAX as nat) == prime_search(be_nat(cand@), fuel as nat),
            spec_next_prime(nn) == prime_search(c0, u64::MAX as nat),
        decreases fuel,
    {
        proof { lemma_small_in_range(be_nat(cand@)); }
        if is_probably_prime_miller_rabin(cand.as_slice(), 20) {
            assert(prime_search(be_nat(cand@), fuel as nat) == be_nat(cand@));
            return cand;
        }
        if fuel == 0 {
            assert(prime_search(be_nat(cand@), fuel as nat) == be_nat(cand@));
            return cand;
        }
        let ghost c = be_nat(cand@);
        cand = big_add(cand.as_slice(), two.as_slice());
        proof { lemma_be_roundtrip(c + 2); }
        fuel = fuel - 1;
    }
}

/// The Fiat-Shamir challenge prime for `(x, y, T)`.
fn derive_challenge(input: &[u8], output: &[u8], iterations: u64) -> (l: Vec<u8>)
    ensures
        l@ == be_bytes(spec_challenge(be_nat(input@), be_nat(output@), iterations)),
        spec_challenge(be_nat(input@), be_nat(output@), iterations) >= 1,
{
    let xb = big_normalize(input);
    let yb = big_normalize(output);
    let mut buf: Vec<u8> = Vec::new();
    crate::bytes::append_bytes(&mut buf, "specter-vdf-challenge:".as_bytes());
    crate::bytes::append_bytes(&mut buf, xb.as_slice());
    crate::bytes::append_bytes(&mut buf, yb.as_slice());
    let tb = vstd::bytes::u64_to_le_bytes(iterations);
    crate::bytes::append_bytes(&mut buf, tb.as_slice());
    let hash = crate::hashing::sha256(buf.as_slice());
    let mut bytes = crate::bytes::sub_vec(&hash, 0, 16);
    let h15 = bytes[15];
    let last = h15 | 1u8;
    bytes.set(15, last);
    proof {
        let ghost x = be_nat(input@);
        let ghost y = be_nat(output@);
        assert(buf@ == challenge_input(x, y, iterations));
        assert(bytes@ == spec_sha256(challenge_input(x, y, iterations)).subrange(0, 16).update(15, last));
        lemma_be_nat_bound(bytes@);
        assert(last % 2 == 1) by (bit_vector)
            requires last == (h15 | 1u8);
        let a = be_nat(bytes@.drop_last());
        assert(bytes@.last() == last);
        assert((a * 256 + (last as nat)) % 2 == 1) by (nonlinear_arith)
            requires last % 2 == 1;
        lemma_prime_search_ge(be_nat(bytes@), u64::MAX as nat);
    }
    next_prime(bytes.as_slice())
}

/// `π = x^⌊2^T / l⌋ mod N`, by long division of `2^T` by `l`.
fn compute_wesolowski_proof(params: &RsaVdfParams, input: &[u8], iterations: u64, l: &[u8]) -> (pi: Vec<u8>)
    requires
        be_nat(params.modulus@) > 0,
        be_nat(l@) > 0,
    ensures
        pi@ == be_bytes(wes_state(be_nat(input@), iterations as nat, be_nat(l@), be_nat(params.modulus@)).0),
{
    let n = params.modulus.as_slice();
    let ghost x = be_nat(input@);
    let ghost ll = be_nat(l@);
    let ghost nn = be_nat(n@);
    proof {
        lemma_be_roundtrip(1);
        lemma_be_roundtrip(2);
    }
    let two = big_from_u64(2);
    let mut pi = big_from_u64(1);
    let mut r = big_from_u64(1);
    let mut i: u64 = 0;
    while i < iterations
        invariant
            i <= iterations,
            n@ == params.modulus@,
            be_nat(n@) == nn,
            nn > 0,
            be_nat(l@) == ll,
            ll > 0,
            be_nat(input@) == x,
            be_nat(two@) == 2,
            pi@ == be_bytes(wes_state(x, i as nat, ll, nn).0),
            be_nat(r@) == wes_state(x, i as nat, ll, nn).1,
        decreases iterations - i,
    {
        let ghost (p0, r0) = wes_state(x, i as nat, ll, nn);
        proof { lemma_be_roundtrip(p0); }
        let two_r = big_mul(r.as_slice(), two.as_slice());
        proof { lemma_be_roundtrip(r0 * 2); }
        let b = big_div(two_r.as_slice(), l);
        proof { lemma_be_roundtrip((r0 * 2) / ll); }
        let sq = big_mul(pi.as_slice(), pi.as_slice());
        proof { lemma_be_roundtrip(p0 * p0); }
        pi = big_rem(sq.as_slice(), n);
        proof { lemma_be_roundtrip((p0 * p0) % nn); }
        if is_one(b.as_slice()) {
            let t = big_mul(pi.as_slice(), input);
            proof { lemma_be_roundtrip(((p0 * p0) % nn) * x); }
            pi = big_rem(t.as_slice(), n);
        }
        r = big_rem(two_r.as_slice(), l);
        proof { lemma_be_roundtrip((r0 * 2) % ll); }
        i = i + 1;
    }
    pi
}

/// `base^exp mod m` for a `u64` exponent.
fn modpow_bigint(base: &[u8], exp: u64, modulus: &[u8]) -> (r: Vec<u8>)
    requires
        be_nat(modulus@) > 0,
    ensures
        be_nat(r@) == (pow(be_nat(base@) as int, exp as nat) % (be_nat(modulus@) as int)),
{
    let e = big_from_u64(exp);
    proof { lemma_be_roundtrip(exp as nat); }
    let r = big_modpow(base, e.as_slice(), modulus);
    proof {
        lemma_mod_bound(pow(be_nat(base@) as int, exp as nat), be_nat(modulus@) as int);
        lemma_be_roundtrip((pow(be_nat(base@) as int, exp as nat) % (be_nat(modulus@) as int)) as nat);
    }
    r
}

/// Repeated squaring is exponentiation by a power of two: `T` squarings
/// of `x` agree with `x^(2^T)` modulo `n`, and are reduced once `T > 0`.
proof fn lemma_sq_iter_pow(x: nat, t: nat, n: nat)
    requires
        n > 0,
    ensures
        (sq_iter(x, t, n) as int) % (n as int) == pow(x as int, pow(2, t) as nat) % (n as int),
        t > 0 ==> sq_iter(x, t, n) < n,
        pow(2, t) > 0,
    decreases t,
{
    lemma_pow_positive(2, t);
    if t == 0 {
        lemma_pow0(2);
        lemma_pow1(x as int);
        assert(pow(2, t) as nat == 1);
        assert(sq_iter(x, t, n) == x);
    } else {
        let s = sq_iter(x, (t - 1) as nat, n) as int;
        lemma_sq_iter_pow(x, (t - 1) as nat, n);
        let e = pow(2, (t - 1) as nat);
        let big = pow(x as int, e as nat);
        lemma_pow_adds(2, 1, (t - 1) as nat);
        lemma_pow1(2);
        assert(1 + (t - 1) as nat == t);
        assert(pow(2, t) == 2 * e);
        lemma_pow_adds(x as int, e as nat, e as nat);
        assert(pow(2, t) as nat == e as nat + e as nat);
        assert(pow(x as int, pow(2, t) as nat) == big * big);
        lemma_mul_mod_noop_general(s, s, n as int);
        lemma_mul_mod_noop_general(big, big, n as int);
        assert(s % (n as int) == big % (n as int));
        assert(((s % (n as int)) * (s % (n as int))) % (n as int) == ((big % (n as int)) * (big % (n as int))) % (n as int));
        lemma_mod_bound(s * s, n as int);
        assert(sq_iter(x, t, n) as int == (s * s) % (n as int));
        vstd::arithmetic::div_mod::lemma_small_mod(sq_iter(x, t, n), n);
    }
}

/// The long division in `wes_state` keeps `r = 2^t mod l` and
/// `π ≡ x^⌊2^t / l⌋ (mod n)`.
proof fn lemma_wes_state(x: nat, t: nat, l: nat, n: nat)
    requires
        l >= 2,
        n > 0,
    ensures
        wes_state(x, t, l, n).1 == pow(2, t) % (l as int),
        pow(2, t) / (l as int) >= 0,
        (wes_state(x, t, l, n).0 as int) % (n as int) == pow(x as int, (pow(2, t) / (l as int)) as nat) % (n as int),
        t > 0 ==> wes_state(x, t, l, n).0 < n,
    decreases t,
{
    lemma_pow_positive(2, t);
    if t == 0 {
        lemma_pow0(2);
        lemma_pow0(x as int);
        assert(wes_state(x, t, l, n) == (1nat, 1nat));
        assert(pow(2, t) == 1);
        vstd::arithmetic::div_mod::lemma_small_mod(1, l);
        assert(1int / (l as int) == 0) by (nonlinear_arith) requires l >= 2;
    } else {
        lemma_wes_state(x, (t - 1) as nat, l, n);
        let pi = wes_state(x, (t - 1) as nat, l, n).0 as int;
        let r = wes_state(x, (t - 1) as nat, l, n).1 as int;
        let p = pow(2, (t - 1) as nat);
        lemma_pow_positive(2, (t - 1) as nat);
        lemma_pow_adds(2, 1, (t - 1) as nat);
        lemma_pow1(2);
        assert(1 + (t - 1) as nat == t);
        assert(pow(2, t) == 2 * p);
        let q = p / (l as int);
        lemma_fundamental_div_mod(p, l as int);
        lemma_mod_bound(p, l as int);
        let b = (2 * r) / (l as int);
        let r2 = (2 * r) % (l as int);
        lemma_fundamental_div_mod(2 * r, l as int);
        lemma_mod_bound(2 * r, l as int);
        assert(0 <= b <= 1) by (nonlinear_arith)
            requires 2 * r == (l as int) * b + r2, 0 <= r < l, 0 <= r2 < l;
        assert(2 * p == (2 * q + b) * (l as int) + r2) by (nonlinear_arith)
            requires p == (l as int) * q + r, 2 * r == (l as int) * b + r2;
        lemma_fundamental_div_mod_converse(2 * p, l as int, 2 * q + b, r2);
        assert(wes_state(x, t, l, n).1 == r2);
        let a = pow(x as int, q as nat);
        lemma_pow_adds(x as int, q as nat, q as nat);
        assert((2 * q) as nat == q as nat + q as nat);
        lemma_mul_mod_noop_general(pi, pi, n as int);
        lemma_mul_mod_noop_general(a, a, n as int);
        assert(pi % (n as int) == a % (n as int));
        assert(((pi % (n as int)) * (pi % (n as int))) % (n as int) == ((a % (n as int)) * (a % (n as int))) % (n as int));
        let pi2 = (pi * pi) % (n as int);
        lemma_mod_bound(pi * pi, n as int);
        assert(pi2 == (a * a) % (n as int));
        assert(a * a == pow(x as int, (2 * q) as nat));
        if b == 1 {
            lemma_mul_mod_noop_left(a * a, x as int, n as int);
            lemma_pow_adds(x as int, (2 * q) as nat, 1);
            lemma_pow1(x as int);
            assert((2 * q + b) as nat == (2 * q) as nat + 1);
            lemma_mod_bound(pi2 * x, n as int);
            assert(wes_state(x, t, l, n).0 == (pi2 * x) % (n as int));
            vstd::arithmetic::div_mod::lemma_small_mod(wes_state(x, t, l, n).0, n);
        } else {
            assert(wes_state(x, t, l, n).0 == pi2);
            vstd::arithmetic::div_mod::lemma_small_mod(wes_state(x, t, l, n).0, n);
        }
    }
}

/// A challenge prime is at least 2.
proof fn lemma_prime_search_at_least_two(c: nat, fuel: nat)
    requires
        fuel > 0,
    ensures
        prime_search(c, fuel) >= 2,
{
    if !mr_spec(c, 20) {
        lemma_prime_search_ge(c + 2, (fuel - 1) as nat);
    }
}

/// An honest proof verifies: when the output is the result of `T`
/// squarings of the input, the challenge is the one derived from them and
/// `π` comes from the long division of `2^T` by it, `verify` accepts (for
/// `T = 0` the input must already be reduced below `N`).
pub proof fn law_honest_proof_verifies(n: nat, p: RsaVdfProof)
    requires
        n > 0,
        be_nat(p.output@) == sq_iter(be_nat(p.input@), p.iterations as nat, n),
        be_nat(p.challenge_l@) == spec_challenge(be_nat(p.input@), be_nat(p.output@), p.iterations),
        be_nat(p.proof_pi@) == wes_state(be_nat(p.input@), p.iterations as nat, be_nat(p.challenge_l@), n).0,
        p.iterations > 0 || be_nat(p.input@) < n,
    ensures
        rsa_proof_valid(n, p),
{
    let x = be_nat(p.input@);
    let y = be_nat(p.output@);
    let t = p.iterations as nat;
    let l = be_nat(p.challenge_l@);
    let c = challenge_candidate(x, y, p.iterations);
    let c0: nat = if c % 2 == 0 { c + 1 } else { c };
    lemma_prime_search_at_least_two(c0, u64::MAX as nat);
    lemma_wes_state(x, t, l, n);
    lemma_sq_iter_pow(x, t, n);
    let pi = be_nat(p.proof_pi@);
    let big_t = pow(2, t);
    let q = big_t / (l as int);
    let r = big_t % (l as int);
    lemma_fundamental_div_mod(big_t, l as int);
    lemma_mod_bound(big_t, l as int);
    let a = pow(x as int, q as nat);
    // π^l ≡ (x^q)^l = x^(q·l)
    lemma_pow_mod_noop(pi as int, l, n as int);
    lemma_pow_mod_noop(a, l, n as int);
    lemma_pow_multiplies(x as int, q as nat, l);
    assert(pow(pi as int, l) % (n as int) == pow(x as int, (q * l) as nat) % (n as int));
    // x^(q·l) · x^r = x^(2^T)
    lemma_pow_adds(x as int, (q * l) as nat, r as nat);
    assert((q * l) + r == big_t) by (nonlinear_arith)
        requires big_t == (l as int) * q + r;
    lemma_mul_mod_noop_general(pow(x as int, (q * l) as nat), pow(x as int, r as nat), n as int);
    let lhs = ((pow(pi as int, l) % (n as int)) * (pow(x as int, r as nat) % (n as int))) % (n as int);
    assert(lhs == pow(x as int, big_t as nat) % (n as int));
    if t == 0 {
        lemma_mod_bound(x as int, n as int);
        vstd::arithmetic::div_mod::lemma_small_mod(x, n);
    } else {
        vstd::arithmetic::div_mod::lemma_small_mod(y, n);
    }
}

/// Evaluates the delay function: `T` squarings of `x` modulo `N`, the
/// challenge prime, and the proof.
pub fn evaluate(params: &RsaVdfParams, input: &[u8], iterations: u64) -> (p: RsaVdfProof)
    requires
        be_nat(params.modulus@) > 0,
    ensures
        p.input@ == be_bytes(be_nat(input@)),
        p.iterations == iterations,
        p.output@ == be_bytes(sq_iter(be_nat(input@), iterations as nat, be_nat(params.modulus@))),
        p.challenge_l@ == be_bytes(spec_challenge(be_nat(input@), be_nat(p.output@), iterations)),
        p.proof_pi@ == be_bytes(wes_state(be_nat(input@), iterations as nat, be_nat(p.challenge_l@), be_nat(params.modulus@)).0),
        iterations > 0 || be_nat(input@) < be_nat(params.modulus@) ==> rsa_proof_valid(be_nat(params.modulus@), p),
{
    let n = params.modulus.as_slice();
    let ghost x = be_nat(input@);
    let ghost nn = be_nat(n@);
    let mut y = big_normalize(input);
    let mut i: u64 = 0;
    while i < iterations
        invariant
            i <= iterations,
            n@ == params.modulus@,
            be_nat(n@) == nn,
            nn > 0,
            y@ == be_bytes(sq_iter(x, i as nat, nn)),
        decreases iterations - i,
    {
        let ghost v = sq_iter(x, i as nat, nn);
        proof { lemma_be_roundtrip(v); }
        let sq = big_mul(y.as_slice(), y.as_slice());
        proof { lemma_be_roundtrip(v * v); }
        y = big_rem(sq.as_slice(), n);
        i = i + 1;
    }
    proof { lemma_be_roundtrip(sq_iter(x, iterations as nat, nn)); }
    let challenge_l = derive_challenge(input, y.as_slice(), iterations);
    proof { lemma_be_roundtrip(spec_challenge(x, sq_iter(x, iterations as nat, nn), iterations)); }
    let pi = compute_wesolowski_proof(params, input, iterations, challenge_l.as_slice());
    let inp = big_normalize(input);
    let p = RsaVdfProof { input: inp, output: y, iterations, proof_pi: pi, challenge_l };
    proof {
        lemma_be_roundtrip(x);
        let l = spec_challenge(x, sq_iter(x, iterations as nat, nn), iterations);
        lemma_be_roundtrip(wes_state(x, iterations as nat, l, nn).0);
        if iterations > 0 || x < nn {
            law_honest_proof_verifies(nn, p);
        }
    }
    p
}

/// Verifies a proof: recomputes the challenge and checks
/// `π^l · x^(2^T mod l) ≡ y (mod N)`.
pub fn verify(params: &RsaVdfParams, proof: &RsaVdfProof) -> (ok: bool)
    requires
        be_nat(params.modulus@) > 0,
    ensures
        ok == rsa_proof_valid(be_nat(params.modulus@), *proof),
{
    let n = params.modulus.as_slice();
    let ghost nn = be_nat(n@);
    let l = derive_challenge(proof.input.as_slice(), proof.output.as_slice(), proof.iterations);
    let ghost ll = spec_challenge(be_nat(proof.input@), be_nat(proof.output@), proof.iterations);
    proof { lemma_be_roundtrip(ll); }
    if !big_eq(l.as_slice(), proof.challenge_l.as_slice()) {
        return false;
    }
    proof { lemma_be_roundtrip(2); }
    let two = big_from_u64(2);
    let r = modpow_bigint(two.as_slice(), proof.iterations, l.as_slice());
    let pi_l = big_modpow(proof.proof_pi.as_slice(), l.as_slice(), n);
    let x_r = big_modpow(proof.input.as_slice(), r.as_slice(), n);
    let prod = big_mul(pi_l.as_slice(), x_r.as_slice());
    let lhs = big_rem(prod.as_slice(), n);
    proof {
        let a = (pow(be_nat(proof.proof_pi@) as int, ll) % (nn as int)) as nat;
        let rr = (pow(2, proof.iterations as nat) % (ll as int)) as nat;
        let b = (pow(be_nat(proof.input@) as int, rr) % (nn as int)) as nat;
        lemma_mod_bound(pow(be_nat(proof.proof_pi@) as int, ll), nn as int);
        lemma_mod_bound(pow(2, proof.iterations as nat), ll as int);
        lemma_mod_bound(pow(be_nat(proof.input@) as int, rr), nn as int);
        lemma_be_roundtrip(a);
        lemma_be_roundtrip(b);
        lemma_be_roundtrip(a * b);
        lemma_be_roundtrip((a * b) % nn);
    }
    big_eq(lhs.as_slice(), proof.output.as_slice())
}

} // verus!
