//! A node's long-term identity and its encrypted storage format, the
//! parsing of a peer's public key, and encryption of messages under a
//! session key.
//!
//! The identity file is `"SID1" ‖ salt (16) ‖ nonce (12) ‖ len (u32 LE) ‖
//! ciphertext`, the ciphertext being the secret scalar encrypted under the
//! passphrase.

use vstd::prelude::*;
use crate::scalar::{is_scalar, sc};
use crate::group::{ristretto_valid, spec_basepoint_mul, encodes};
use crate::pct::secure_store::{spec_aead_open, spec_aead_seal, spec_derive_key, SecureStoreError, MIN_PASSPHRASE_LEN};

verus! {

/// The identity file's magic bytes, `"SID1"`.
pub open spec fn identity_magic() -> Seq<u8> {
    seq![0x53u8, 0x49u8, 0x44u8, 0x31u8]
}

/// The stored form of an encrypted blob.
pub open spec fn identity_bytes(salt: Seq<u8>, nonce: Seq<u8>, ct: Seq<u8>) -> Seq<u8> {
    identity_magic() + salt + nonce + vstd::bytes::spec_u32_to_le_bytes(ct.len() as u32) + ct
}

/// What decoding an identity file with a passphrase gives: the secret
/// scalar, when the format, the passphrase and the plaintext are right.
pub open spec fn spec_decode_identity(d: Seq<u8>, pass: Seq<u8>) -> Option<[u8; 32]> {
    if d.len() < 36 || d.subrange(0, 4) != identity_magic() {
        None
    } else {
        let ct_len = vstd::bytes::spec_u32_from_le_bytes(d.subrange(32, 36)) as int;
        if 36 + ct_len > d.len() {
            None
        } else {
            match spec_aead_open(spec_derive_key(pass, d.subrange(4, 20)), d.subrange(20, 32), d.subrange(36, 36 + ct_len)) {
                Some(pt) => if pt.len() == 32 && is_scalar(arr32(pt)) { Some(arr32(pt)) } else { None },
                None => None,
            }
        }
    }
}

/// The array holding a 32-byte string.
pub open spec fn arr32(s: Seq<u8>) -> [u8; 32] {
    choose|a: [u8; 32]| a@ == s
}

/// A node's long-term key pair; the secret is wiped when dropped.
pub struct NodeIdentity {
    secret: [u8; 32],
    public: [u8; 32],
}

impl NodeIdentity {
    pub closed spec fn sk(&self) -> [u8; 32] {
        self.secret
    }

    pub closed spec fn pk(&self) -> [u8; 32] {
        self.public
    }

    /// The key pair's relation: `public = secret·B`.
    pub open spec fn wf(&self) -> bool {
        &&& is_scalar(self.sk())
        &&& self.pk()@ == spec_basepoint_mul(self.sk()@)
        &&& ristretto_valid(self.pk()@)
        &&& encodes(self.pk()@, sc(self.sk()) as int)
    }

    /// A fresh random identity.
    pub fn generate() -> (id: Self)
        ensures
            id.wf(),
    {
        let secret = crate::group::random_scalar();
        let public = crate::group::basepoint_mul(secret);
        NodeIdentity { secret, public }
    }

    /// The public key.
    pub fn public_key(&self) -> (p: [u8; 32])
        ensures
            p == self.pk(),
    {
        self.public
    }

    /// The secret scalar.
    pub fn secret(&self) -> (s: &[u8; 32])
        ensures
            *s == self.sk(),
    {
        &self.secret
    }

    /// The stored form: the secret encrypted under the passphrase, which
    /// must have the minimum length.
    pub fn encode(&self, passphrase: &[u8]) -> (out: Vec<u8>)
        requires
            passphrase@.len() >= MIN_PASSPHRASE_LEN,
            passphrase@.len() <= 0xFFFF_FFFF,
        ensures
            out@.len() >= 36,
            out@ == identity_bytes(out@.subrange(4, 20), out@.subrange(20, 32), out@.subrange(36, out@.len() as int)),
            spec_aead_open(spec_derive_key(passphrase@, out@.subrange(4, 20)), out@.subrange(20, 32),
                out@.subrange(36, out@.len() as int)) == Some(self.sk()@),
    {
        let enc = match crate::pct::secure_store::encrypt(&self.secret, passphrase) {
            Ok(e) => e,
            Err(_) => vstd::pervasive::unreached(),
        };
        let mut out: Vec<u8> = Vec::new();
        let magic: [u8; 4] = [0x53, 0x49, 0x44, 0x31];
        crate::bytes::append_bytes(&mut out, &magic);
        crate::bytes::append_bytes(&mut out, &enc.salt);
        crate::bytes::append_bytes(&mut out, &enc.nonce);
        let cl = vstd::bytes::u32_to_le_bytes(enc.ciphertext.len() as u32);
        crate::bytes::append_bytes(&mut out, cl.as_slice());
        crate::bytes::append_bytes(&mut out, enc.ciphertext.as_slice());
        proof {
            assert(magic@ =~= identity_magic());
            let o = out@;
            assert(o.subrange(4, 20) =~= enc.salt@);
            assert(o.subrange(20, 32) =~= enc.nonce@);
            assert(o.subrange(36, o.len() as int) =~= enc.ciphertext@);
        }
        out
    }

    /// Decodes a stored identity with the passphrase; `None` on a bad
    /// format, a wrong passphrase, or a plaintext that is not a canonical
    /// scalar. The plaintext is wiped before returning.
    pub fn decode(data: &[u8], passphrase: &[u8]) -> (r: Option<Self>)
        requires
            passphrase@.len() <= 0xFFFF_FFFF,
        ensures
            match r {
                Some(id) => spec_decode_identity(data@, passphrase@) == Some(id.sk()) && id.wf(),
                None => spec_decode_identity(data@, passphrase@) is None,
            },
    {
        if data.len() < 36 {
            return None;
        }
        if !(data[0] == 0x53 && data[1] == 0x49 && data[2] == 0x44 && data[3] == 0x31) {
            assert(data@.subrange(0, 4) != identity_magic()) by {
                if data@.subrange(0, 4) == identity_magic() {
                    assert(data@[0] == data@.subrange(0, 4)[0]);
                    assert(data@[1] == data@.subrange(0, 4)[1]);
                    assert(data@[2] == data@.subrange(0, 4)[2]);
                    assert(data@[3] == data@.subrange(0, 4)[3]);
                }
            }
            return None;
        }
        assert(data@.subrange(0, 4) =~= identity_magic());
        let salt = crate::bytes::copy_into16(data, 4);
        let nonce = crate::bytes::copy_into12(data, 20);
        let ct_len = crate::bytes::read_u32_at(data, 32) as usize;
        if ct_len > data.len() - 36 {
            return None;
        }
        let ciphertext = crate::bytes::sub_vec(data, 36, ct_len);
        let enc = crate::pct::secure_store::EncryptedData { salt, nonce, ciphertext };
        let mut pt = match crate::pct::secure_store::decrypt(&enc, passphrase) {
            Ok(p) => p,
            Err(_) => return None,
        };
        if pt.len() != 32 {
            crate::rng::wipe_vec(&mut pt);
            return None;
        }
        let mut sk_arr = crate::bytes::to_array32(pt.as_slice());
        crate::rng::wipe_vec(&mut pt);
        let secret = crate::group::scalar_from_canonical(sk_arr);
        proof {
            let a = arr32(sk_arr@);
            assert(a@ == sk_arr@);
            assert(a =~= sk_arr) by {
                assert forall|i: int| 0 <= i < 32 implies a[i] == sk_arr[i] by {
                    assert(a@[i] == sk_arr@[i]);
                }
            }
        }
        crate::rng::wipe_array32(&mut sk_arr);
        match secret {
            Some(s) => {
                let public = crate::group::basepoint_mul(s);
                Some(NodeIdentity { secret: s, public })
            },
            None => None,
        }
    }

    /// The public key in hexadecimal.
    pub fn public_hex(&self) -> (s: String)
        ensures
            s@ == crate::pct::secure_store::hex_chars(self.pk()@),
    {
        crate::pct::secure_store::hex_encode(&self.public)
    }
}

impl Drop for NodeIdentity {
    fn drop(&mut self)
        opens_invariants none
        no_unwind
    {
        crate::rng::wipe_array32(&mut self.secret);
    }
}

/// The value of a hexadecimal digit, either case.
pub open spec fn hex_value(c: u8) -> Option<u8> {
    if 0x30 <= c <= 0x39 {
        Some((c - 0x30) as u8)
    } else if 0x61 <= c <= 0x66 {
        Some((c - 0x61 + 10) as u8)
    } else if 0x41 <= c <= 0x46 {
        Some((c - 0x41 + 10) as u8)
    } else {
        None
    }
}

/// Hexadecimal decoding: pairs of digits, high nibble first; `None` on an
/// odd length or a character that is not a digit.
pub open spec fn hex_decoded(s: Seq<u8>) -> Option<Seq<u8>>
    decreases s.len(),
{
    if s.len() == 0 {
        Some(Seq::empty())
    } else if s.len() == 1 {
        None
    } else {
        match (hex_value(s[0]), hex_value(s[1]), hex_decoded(s.subrange(2, s.len() as int))) {
            (Some(h), Some(l), Some(rest)) => Some(seq![(h * 16 + l) as u8] + rest),
            _ => None,
        }
    }
}

/// Calls `hex::decode`. Claims: the result is the hexadecimal decoding of
/// the bytes, or `None` when they are not hexadecimal.
#[verifier::external_body]
fn hex_decode(s: &[u8]) -> (r: Option<Vec<u8>>)
    ensures
        r.is_some() == hex_decoded(s@).is_some(),
        r.is_some() ==> r.unwrap()@ == hex_decoded(s@).unwrap(),
{
    hex::decode(s).ok()
}

/// Whether `c` has the Unicode `White_Space` property.
pub open spec fn is_white_space(c: char) -> bool {
    let n = c as u32;
    ||| 0x9 <= n <= 0xd
    ||| n == 0x20 || n == 0x85 || n == 0xa0 || n == 0x1680
    ||| 0x2000 <= n <= 0x200a
    ||| n == 0x2028 || n == 0x2029 || n == 0x202f || n == 0x205f || n == 0x3000
}

/// `s` without its leading white space.
pub open spec fn trim_start_spec(s: Seq<char>) -> Seq<char>
    decreases s.len(),
{
    if s.len() > 0 && is_white_space(s[0]) {
        trim_start_spec(s.drop_first())
    } else {
        s
    }
}

/// `s` without its trailing white space.
pub open spec fn trim_end_spec(s: Seq<char>) -> Seq<char>
    decreases s.len(),
{
    if s.len() > 0 && is_white_space(s.last()) {
        trim_end_spec(s.drop_last())
    } else {
        s
    }
}

/// `s` without leading and trailing white space.
pub open spec fn trimmed(s: Seq<char>) -> Seq<char> {
    trim_end_spec(trim_start_spec(s))
}

/// Calls `str::trim`, documented to remove leading and trailing white
/// space as the Unicode `White_Space` property defines it. Claims: the
/// result is the input without them.
#[verifier::external_body]
fn trim(s: &str) -> (r: String)
    ensures
        r@ == trimmed(s@),
{
    s.trim().to_string()
}

/// The key that a hexadecimal string denotes: the decoding of the string
/// without surrounding white space, when it has 32 bytes that encode a
/// group element.
pub open spec fn peer_pk_spec(s: Seq<char>) -> Option<Seq<u8>> {
    let h = hex_decoded(vstd::utf8::encode_utf8(trimmed(s)));
    if h is Some && h.unwrap().len() == 32 && ristretto_valid(h.unwrap()) {
        h
    } else {
        None
    }
}

/// Parses a peer's public key given in hexadecimal (surrounding
/// whitespace ignored): `Some` when it decodes to 32 bytes that encode a
/// group element.
pub fn parse_peer_pk(s: &str) -> (r: Option<[u8; 32]>)
    ensures
        r.is_some() == peer_pk_spec(s@).is_some(),
        r.is_some() ==> r.unwrap()@ == peer_pk_spec(s@).unwrap(),
        r.is_some() ==> ristretto_valid(r.unwrap()@),
{
    let t = trim(s);
    let bytes = match hex_decode(t.as_str().as_bytes()) {
        Some(b) => b,
        None => return None,
    };
    if bytes.len() != 32 {
        return None;
    }
    let arr = crate::bytes::to_array32(bytes.as_slice());
    if crate::group::point_is_valid(&arr) {
        Some(arr)
    } else {
        None
    }
}

/// Encrypts a message under a session key with a fresh random nonce:
/// `nonce (12) ‖ ciphertext`. `None` when the message is too long for the
/// cipher.
pub fn encrypt_with_key(plaintext: &[u8], key: &[u8; 32]) -> (r: Option<Vec<u8>>)
    ensures
        plaintext@.len() / 64 >= 0xFFFF_FFFF ==> r is None,
        plaintext@.len() / 64 < 0xFFFF_FFFF ==> r is Some && {
            let out = r->Some_0@;
            &&& out.len() == 12 + plaintext@.len() + 16
            &&& out.subrange(12, out.len() as int) == spec_aead_seal(key@, out.subrange(0, 12), plaintext@)
            &&& spec_aead_open(key@, out.subrange(0, 12), out.subrange(12, out.len() as int)) == Some(plaintext@)
        },
{
    if plaintext.len() / 64 >= 0xFFFF_FFFF {
        return None;
    }
    let nonce = crate::pct::secure_store::random_array12();
    let ct = crate::pct::secure_store::aead_seal(key, &nonce, plaintext);
    let mut out: Vec<u8> = Vec::new();
    crate::bytes::append_bytes(&mut out, &nonce);
    crate::bytes::append_bytes(&mut out, ct.as_slice());
    proof {
        assert(out@.subrange(0, 12) =~= nonce@);
        assert(out@.subrange(12, out@.len() as int) =~= ct@);
    }
    Some(out)
}

/// Decrypts `nonce (12) ‖ ciphertext` under a session key; `None` when the
/// input is shorter than a nonce or does not authenticate.
pub fn decrypt_with_key(data: &[u8], key: &[u8; 32]) -> (r: Option<Vec<u8>>)
    ensures
        data@.len() < 12 ==> r is None,
        data@.len() >= 12 ==> match spec_aead_open(key@, data@.subrange(0, 12), data@.subrange(12, data@.len() as int)) {
            Some(pt) => r is Some && r->Some_0@ == pt,
            None => r is None,
        },
{
    if data.len() < 12 {
        return None;
    }
    let nonce = crate::bytes::copy_into12(data, 0);
    let ct = crate::bytes::sub_vec(data, 12, data.len() - 12);
    crate::pct::secure_store::aead_open(key, &nonce, ct.as_slice())
}

/// Decoding the stored form of an identity with the same passphrase gives
/// its secret back.
pub proof fn law_identity_roundtrip(out: Seq<u8>, passphrase: Seq<u8>, secret: [u8; 32])
    requires
        is_scalar(secret),
        out.len() >= 36,
        out.len() - 36 <= u32::MAX,
        out == identity_bytes(out.subrange(4, 20), out.subrange(20, 32), out.subrange(36, out.len() as int)),
        spec_aead_open(spec_derive_key(passphrase, out.subrange(4, 20)), out.subrange(20, 32),
            out.subrange(36, out.len() as int)) == Some(secret@),
    ensures
        spec_decode_identity(out, passphrase) == Some(secret),
{
    let ct = out.subrange(36, out.len() as int);
    let lb = vstd::bytes::spec_u32_to_le_bytes(ct.len() as u32);
    vstd::bytes::lemma_auto_spec_u32_to_from_le_bytes();
    assert(out.subrange(0, 4) =~= identity_magic());
    assert(out.subrange(32, 36) =~= lb);
    assert(out.subrange(36, 36 + ct.len() as int) =~= ct);
    let a = arr32(secret@);
    assert(a =~= secret) by {
        assert forall|i: int| 0 <= i < 32 implies a[i] == secret[i] by {
            assert(a@[i] == secret@[i]);
        }
    }
}

} // verus!
