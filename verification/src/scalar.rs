//! Integers modulo the group order ℓ and their canonical 32-byte
//! little-endian encodings.

use vstd::prelude::*;
use crate::bytes::le_nat;

verus! {

/// The order of the group, ℓ = 2^252 + 27742317777372353535851937790883648493.
pub open spec fn group_order() -> nat {
    (0x1000000000000000000000000000000014def9dea2f79cd65812631a5cf5d3edint) as nat
}

/// The integer that a scalar encoding denotes.
pub open spec fn sc(s: [u8; 32]) -> nat {
    le_nat(s@)
}

/// A canonical scalar encoding: its value is reduced modulo ℓ.
pub open spec fn is_scalar(s: [u8; 32]) -> bool {
    sc(s) < group_order()
}

/// The canonical encoding of an integer taken modulo ℓ.
pub open spec fn enc(n: int) -> Seq<u8> {
    crate::bytes::le_enc((n % (group_order() as int)) as nat, 32)
}

/// ℓ fits in 32 bytes.
pub proof fn lemma_group_order_fits()
    ensures
        group_order() < crate::bytes::pow256(32),
        group_order() > 1,
{
    reveal_with_fuel(crate::bytes::pow256, 33);
}

/// A canonical encoding has 32 bytes and denotes its integer modulo ℓ.
pub broadcast proof fn lemma_enc(n: int)
    ensures
        #[trigger] le_nat(enc(n)) == n % (group_order() as int),
        enc(n).len() == 32,
{
    lemma_group_order_fits();
    crate::bytes::lemma_le_nat_le_enc((n % (group_order() as int)) as nat, 32);
    crate::bytes::lemma_le_enc_len((n % (group_order() as int)) as nat, 32);
}

/// A canonical scalar array is the encoding of its value.
pub proof fn lemma_scalar_is_enc(s: [u8; 32])
    requires
        is_scalar(s),
    ensures
        s@ == enc(sc(s) as int),
{
    crate::bytes::lemma_le_enc_le_nat(s@);
    vstd::arithmetic::div_mod::lemma_small_mod(sc(s), group_order());
}

/// The array whose bytes are the canonical encoding of `n`.
pub open spec fn scalar_array(n: int) -> [u8; 32] {
    choose|a: [u8; 32]| a@ == enc(n)
}

/// An array with the canonical encoding of `n` is `scalar_array(n)`.
pub proof fn lemma_scalar_array(a: [u8; 32], n: int)
    requires
        a@ == enc(n),
    ensures
        a == scalar_array(n),
{
    let c = scalar_array(n);
    assert(c@ == enc(n));
    assert(c =~= a) by {
        assert forall|i: int| 0 <= i < 32 implies c[i] == a[i] by {
            assert(c@[i] == a@[i]);
        }
    }
}

/// Two integers that differ by a multiple of `m` are equal modulo `m`.
pub proof fn lemma_mod_congruent(a: int, b: int, q: int, m: int)
    requires
        m > 0,
        a - b == q * m,
    ensures
        a % m == b % m,
{
    vstd::arithmetic::div_mod::lemma_mod_multiples_vanish(q, b, m);
    assert(a == m * q + b) by (nonlinear_arith)
        requires a - b == q * m;
}

} // verus!
