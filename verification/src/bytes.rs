//! Byte-level helpers shared by the encoders and parsers.

use vstd::prelude::*;

verus! {

/// Little-endian value of a byte string.
pub open spec fn le_nat(s: Seq<u8>) -> nat
    decreases s.len(),
{
    if s.len() == 0 {
        0
    } else {
        s[0] as nat + 256 * le_nat(s.drop_first())
    }
}

/// The `len`-byte little-endian encoding of `n` (higher digits dropped).
pub open spec fn le_enc(n: nat, len: nat) -> Seq<u8>
    decreases len,
{
    if len == 0 {
        Seq::empty()
    } else {
        seq![(n % 256) as u8] + le_enc(n / 256, (len - 1) as nat)
    }
}

/// 256 to the power `len`.
pub open spec fn pow256(len: nat) -> nat
    decreases len,
{
    if len == 0 {
        1
    } else {
        256 * pow256((len - 1) as nat)
    }
}

pub proof fn lemma_le_enc_len(n: nat, len: nat)
    ensures
        le_enc(n, len).len() == len,
    decreases len,
{
    if len > 0 {
        lemma_le_enc_len(n / 256, (len - 1) as nat);
    }
}

/// Decoding an encoding gives the number back, when it fits.
pub proof fn lemma_le_nat_le_enc(n: nat, len: nat)
    requires
        n < pow256(len),
    ensures
        le_nat(le_enc(n, len)) == n,
    decreases len,
{
    if len > 0 {
        let m = n / 256;
        let p = pow256((len - 1) as nat);
        assert(m < p) by (nonlinear_arith)
            requires
                n < 256 * p,
                m == n / 256,
        ;
        lemma_le_nat_le_enc(m, (len - 1) as nat);
        let e = le_enc(n, len);
        assert(e.drop_first() =~= le_enc(m, (len - 1) as nat));
        assert(n == (n % 256) + 256 * m) by (nonlinear_arith)
            requires
                m == n / 256,
        ;
    }
}

/// A byte string is the encoding of its value.
pub proof fn lemma_le_enc_le_nat(s: Seq<u8>)
    ensures
        le_enc(le_nat(s), s.len()) == s,
        le_nat(s) < pow256(s.len()),
    decreases s.len(),
{
    if s.len() > 0 {
        let t = s.drop_first();
        lemma_le_enc_le_nat(t);
        let v = le_nat(s);
        let w = le_nat(t);
        assert(v == s[0] as nat + 256 * w);
        assert(v % 256 == s[0] as nat && v / 256 == w) by (nonlinear_arith)
            requires
                v == s[0] as nat + 256 * w,
                s[0] < 256,
        ;
        assert(le_enc(v, s.len()) =~= s);
        assert(v < 256 * pow256(t.len())) by (nonlinear_arith)
            requires
                v == s[0] as nat + 256 * w,
                s[0] < 256,
                w < pow256(t.len()),
        ;
    }
}

/// Two byte strings of one length with the same value are equal.
pub proof fn lemma_le_nat_injective(a: Seq<u8>, b: Seq<u8>)
    requires
        a.len() == b.len(),
        le_nat(a) == le_nat(b),
    ensures
        a == b,
{
    lemma_le_enc_le_nat(a);
    lemma_le_enc_le_nat(b);
}

/// Appends `src` to the end of `buf`.
pub fn append_bytes(buf: &mut Vec<u8>, src: &[u8])
    ensures
        final(buf)@ == old(buf)@ + src@,
{
    let mut i: usize = 0;
    while i < src.len()
        invariant
            0 <= i <= src.len(),
            buf@ == old(buf)@ + src@.subrange(0, i as int),
        decreases src.len() - i,
    {
        buf.push(src[i]);
        i = i + 1;
        assert(src@.subrange(0, i as int) == src@.subrange(0, (i - 1) as int).push(src@[i - 1]));
    }
    assert(src@.subrange(0, src@.len() as int) == src@);
}

/// A copy of a list of 32-byte strings.
pub fn copy_vec32(v: &Vec<[u8; 32]>) -> (r: Vec<[u8; 32]>)
    ensures
        r@ == v@,
{
    let mut r: Vec<[u8; 32]> = Vec::new();
    let mut i: usize = 0;
    while i < v.len()
        invariant
            0 <= i <= v@.len(),
            r@ == v@.take(i as int),
        decreases v@.len() - i,
    {
        r.push(v[i]);
        i = i + 1;
        assert(r@ =~= v@.take(i as int));
    }
    assert(v@.take(v@.len() as int) =~= v@);
    r
}

/// Whether two 32-byte strings are equal.
pub fn bytes32_eq(a: &[u8; 32], b: &[u8; 32]) -> (r: bool)
    ensures
        r == (a@ == b@),
{
    let mut i: usize = 0;
    while i < 32
        invariant
            0 <= i <= 32,
            forall|j: int| 0 <= j < i ==> a@[j] == b@[j],
        decreases 32 - i,
    {
        if a[i] != b[i] {
            return false;
        }
        i = i + 1;
    }
    assert(a@ =~= b@);
    true
}

/// Whether two byte strings are equal.
pub fn bytes_eq(a: &[u8], b: &[u8]) -> (r: bool)
    ensures
        r == (a@ == b@),
{
    if a.len() != b.len() {
        return false;
    }
    let mut i: usize = 0;
    while i < a.len()
        invariant
            0 <= i <= a.len(),
            a.len() == b.len(),
            forall|j: int| 0 <= j < i ==> a@[j] == b@[j],
        decreases a.len() - i,
    {
        if a[i] != b[i] {
            return false;
        }
        i = i + 1;
    }
    assert(a@ =~= b@);
    true
}

/// Copies a byte string of length 32 into an array.
pub fn to_array32(s: &[u8]) -> (r: [u8; 32])
    requires
        s@.len() == 32,
    ensures
        r@ == s@,
{
    let mut r = [0u8; 32];
    let mut i: usize = 0;
    while i < 32
        invariant
            0 <= i <= 32,
            s@.len() == 32,
            forall|j: int| 0 <= j < i ==> r@[j] == s@[j],
        decreases 32 - i,
    {
        r[i] = s[i];
        i = i + 1;
    }
    assert(r@ =~= s@);
    r
}

/// Copies a byte string of length 64 into an array.
pub fn to_array64(s: &[u8]) -> (r: [u8; 64])
    requires
        s@.len() == 64,
    ensures
        r@ == s@,
{
    let mut r = [0u8; 64];
    let mut i: usize = 0;
    while i < 64
        invariant
            0 <= i <= 64,
            s@.len() == 64,
            forall|j: int| 0 <= j < i ==> r@[j] == s@[j],
        decreases 64 - i,
    {
        r[i] = s[i];
        i = i + 1;
    }
    assert(r@ =~= s@);
    r
}


/// The first 32 bytes of a byte string.
pub fn take32(s: &[u8]) -> (r: [u8; 32])
    requires
        s@.len() >= 32,
    ensures
        r@ == s@.subrange(0, 32),
{
    let mut r = [0u8; 32];
    let mut i: usize = 0;
    while i < 32
        invariant
            0 <= i <= 32,
            s@.len() >= 32,
            forall|j: int| 0 <= j < i ==> r@[j] == s@[j],
        decreases 32 - i,
    {
        r[i] = s[i];
        i = i + 1;
    }
    assert(r@ =~= s@.subrange(0, 32));
    r
}

/// Copies 16 bytes of `src` from `start` into an array.
pub fn copy_into16(src: &[u8], start: usize) -> (a: [u8; 16])
    requires
        start + 16 <= src@.len(),
    ensures
        a@ == src@.subrange(start as int, start + 16),
{
    let mut a = [0u8; 16];
    let mut i: usize = 0;
    while i < 16
        invariant
            0 <= i <= 16,
            start + 16 <= src.len(),
            forall|j: int| 0 <= j < i ==> a@[j] == src@[start + j],
        decreases 16 - i,
    {
        a[i] = src[start + i];
        i = i + 1;
    }
    assert(a@ =~= src@.subrange(start as int, start + 16));
    a
}

/// Copies 12 bytes of `src` from `start` into an array.
pub fn copy_into12(src: &[u8], start: usize) -> (a: [u8; 12])
    requires
        start + 12 <= src@.len(),
    ensures
        a@ == src@.subrange(start as int, start + 12),
{
    let mut a = [0u8; 12];
    let mut i: usize = 0;
    while i < 12
        invariant
            0 <= i <= 12,
            start + 12 <= src.len(),
            forall|j: int| 0 <= j < i ==> a@[j] == src@[start + j],
        decreases 12 - i,
    {
        a[i] = src[start + i];
        i = i + 1;
    }
    assert(a@ =~= src@.subrange(start as int, start + 12));
    a
}

/// The `len` bytes of `src` from `start`.
pub fn sub_vec(src: &[u8], start: usize, len: usize) -> (v: Vec<u8>)
    requires
        start + len <= src@.len(),
    ensures
        v@ == src@.subrange(start as int, start + len),
{
    let mut v: Vec<u8> = Vec::new();
    let mut i: usize = 0;
    while i < len
        invariant
            0 <= i <= len,
            start + len <= src.len(),
            v@ == src@.subrange(start as int, start + i),
        decreases len - i,
    {
        v.push(src[start + i]);
        i = i + 1;
        assert(v@ =~= src@.subrange(start as int, start + i));
    }
    v
}

/// The little-endian `u32` at `start` in `src`.
pub fn read_u32_at(src: &[u8], start: usize) -> (x: u32)
    requires
        start + 4 <= src@.len(),
    ensures
        x == vstd::bytes::spec_u32_from_le_bytes(src@.subrange(start as int, start + 4)),
{
    let v = sub_vec(src, start, 4);
    vstd::bytes::u32_from_le_bytes(v.as_slice())
}

} // verus!
