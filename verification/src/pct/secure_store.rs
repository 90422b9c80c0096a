//! Encryption of secrets at rest: a key derived from the passphrase by
//! Argon2id (128 MiB, 4 passes, 4 lanes) with a random salt, and
//! ChaCha20-Poly1305 authenticated encryption under a random nonce.

use vstd::prelude::*;
use chacha20poly1305::aead::{Aead, KeyInit};

verus! {

/// An encrypted blob with its salt and nonce.
#[derive(Clone, Debug)]
pub struct EncryptedData {
    /// Argon2 salt.
    pub salt: [u8; 16],
    /// ChaCha20-Poly1305 nonce.
    pub nonce: [u8; 12],
    /// Ciphertext followed by the 16-byte authentication tag.
    pub ciphertext: Vec<u8>,
}

/// Errors of secure storage.
#[derive(Debug, PartialEq, Eq, Clone, Copy)]
pub enum SecureStoreError {
    /// Wrong passphrase or corrupted data.
    DecryptionFailed,
    /// The passphrase is shorter than the minimum.
    PassphraseTooShort { min: usize, got: usize },
}

/// Minimum passphrase length for encryption.
pub const MIN_PASSPHRASE_LEN: usize = 12;

/// Argon2id memory cost in KiB.
pub const ARGON2_M_COST: u32 = 131072;
/// Argon2id passes.
pub const ARGON2_T_COST: u32 = 4;
/// Argon2id lanes.
pub const ARGON2_P_COST: u32 = 4;

/// The 32-byte Argon2id (version 0x13) output for a passphrase, a salt and
/// the costs.
pub uninterp spec fn spec_argon2id(pass: Seq<u8>, salt: Seq<u8>, m_cost: u32, t_cost: u32, p_cost: u32) -> Seq<u8>;

/// ChaCha20-Poly1305 encryption of a plaintext (ciphertext and tag).
pub uninterp spec fn spec_aead_seal(key: Seq<u8>, nonce: Seq<u8>, plaintext: Seq<u8>) -> Seq<u8>;

/// ChaCha20-Poly1305 decryption: the plaintext, or `None` when the tag
/// does not authenticate the ciphertext.
pub uninterp spec fn spec_aead_open(key: Seq<u8>, nonce: Seq<u8>, ciphertext: Seq<u8>) -> Option<Seq<u8>>;

/// The key derived from a passphrase and a salt.
pub open spec fn spec_derive_key(pass: Seq<u8>, salt: Seq<u8>) -> Seq<u8> {
    spec_argon2id(pass, salt, ARGON2_M_COST, ARGON2_T_COST, ARGON2_P_COST)
}

/// Calls `argon2::Argon2::hash_password_into` (Argon2id, version 0x13,
/// 32-byte output) with the given costs. Claims: the key is a function of
/// its inputs. The costs and lengths admitted are those the crate accepts.
#[verifier::external_body]
fn argon2id(pass: &[u8], salt: &[u8; 16], m_cost: u32, t_cost: u32, p_cost: u32) -> (key: [u8; 32])
    requires
        pass@.len() <= 0xFFFF_FFFF,
        1 <= p_cost <= 0xFF_FFFF,
        t_cost >= 1,
        m_cost >= 8 * p_cost,
    ensures
        key@ == spec_argon2id(pass@, salt@, m_cost, t_cost, p_cost),
{
    let params = argon2::Params::new(m_cost, t_cost, p_cost, Some(32)).unwrap();
    let a = argon2::Argon2::new(argon2::Algorithm::Argon2id, argon2::Version::V0x13, params);
    let mut key = [0u8; 32];
    a.hash_password_into(pass, salt, &mut key).unwrap();
    key
}

/// Calls `ChaCha20Poly1305::encrypt`. Claims: the result is a function of
/// key, nonce and plaintext, 16 bytes longer than the plaintext, and
/// decrypting it with the same key and nonce gives the plaintext back.
#[verifier::external_body]
pub(crate) fn aead_seal(key: &[u8; 32], nonce: &[u8; 12], plaintext: &[u8]) -> (ct: Vec<u8>)
    requires
        plaintext@.len() / 64 < 0xFFFF_FFFF,
    ensures
        ct@ == spec_aead_seal(key@, nonce@, plaintext@),
        ct@.len() == plaintext@.len() + 16,
        spec_aead_open(key@, nonce@, ct@) == Some(plaintext@),
{
    let cipher = chacha20poly1305::ChaCha20Poly1305::new(chacha20poly1305::Key::from_slice(key));
    cipher.encrypt(chacha20poly1305::Nonce::from_slice(nonce), plaintext).unwrap()
}

/// Calls `ChaCha20Poly1305::decrypt`. Claims: the result is the named
/// function of key, nonce and ciphertext.
#[verifier::external_body]
pub(crate) fn aead_open(key: &[u8; 32], nonce: &[u8; 12], ciphertext: &[u8]) -> (pt: Option<Vec<u8>>)
    ensures
        pt.is_some() == spec_aead_open(key@, nonce@, ciphertext@).is_some(),
        pt.is_some() ==> pt.unwrap()@ == spec_aead_open(key@, nonce@, ciphertext@).unwrap(),
{
    let cipher = chacha20poly1305::ChaCha20Poly1305::new(chacha20poly1305::Key::from_slice(key));
    cipher.decrypt(chacha20poly1305::Nonce::from_slice(nonce), ciphertext).ok()
}

/// The encryption key for a passphrase and salt.
fn derive_key(passphrase: &[u8], salt: &[u8; 16]) -> (key: [u8; 32])
    requires
        passphrase@.len() <= 0xFFFF_FFFF,
    ensures
        key@ == spec_derive_key(passphrase@, salt@),
{
    argon2id(passphrase, salt, ARGON2_M_COST, ARGON2_T_COST, ARGON2_P_COST)
}

fn random_array16() -> (a: [u8; 16]) {
    let v = crate::rng::random_bytes(16);
    let mut a = [0u8; 16];
    let mut i: usize = 0;
    while i < 16
        invariant
            0 <= i <= 16,
            v@.len() == 16,
        decreases 16 - i,
    {
        a[i] = v[i];
        i = i + 1;
    }
    a
}

pub(crate) fn random_array12() -> (a: [u8; 12]) {
    let v = crate::rng::random_bytes(12);
    let mut a = [0u8; 12];
    let mut i: usize = 0;
    while i < 12
        invariant
            0 <= i <= 12,
            v@.len() == 12,
        decreases 12 - i,
    {
        a[i] = v[i];
        i = i + 1;
    }
    a
}

/// Encrypts data under a passphrase with a fresh salt and nonce. Refuses a
/// passphrase shorter than the minimum.
pub fn encrypt(plaintext: &[u8], passphrase: &[u8]) -> (r: Result<EncryptedData, SecureStoreError>)
    requires
        plaintext@.len() / 64 < 0xFFFF_FFFF,
        passphrase@.len() <= 0xFFFF_FFFF,
    ensures
        passphrase@.len() < MIN_PASSPHRASE_LEN ==> r == Err::<EncryptedData, SecureStoreError>(
            SecureStoreError::PassphraseTooShort { min: MIN_PASSPHRASE_LEN, got: passphrase@.len() as usize }),
        passphrase@.len() >= MIN_PASSPHRASE_LEN ==> r is Ok && {
            let e = r->Ok_0;
            &&& e.ciphertext@ == spec_aead_seal(spec_derive_key(passphrase@, e.salt@), e.nonce@, plaintext@)
            &&& e.ciphertext@.len() == plaintext@.len() + 16
            &&& spec_aead_open(spec_derive_key(passphrase@, e.salt@), e.nonce@, e.ciphertext@) == Some(plaintext@)
        },
{
    if passphrase.len() < MIN_PASSPHRASE_LEN {
        return Err(SecureStoreError::PassphraseTooShort { min: MIN_PASSPHRASE_LEN, got: passphrase.len() });
    }
    let salt = random_array16();
    let nonce = random_array12();
    let mut key = derive_key(passphrase, &salt);
    let ciphertext = aead_seal(&key, &nonce, plaintext);
    crate::rng::wipe_array32(&mut key);
    Ok(EncryptedData { salt, nonce, ciphertext })
}

/// What decrypting `e` with a passphrase gives.
pub open spec fn decrypt_result(e: EncryptedData, passphrase: Seq<u8>) -> Result<Seq<u8>, SecureStoreError> {
    match spec_aead_open(spec_derive_key(passphrase, e.salt@), e.nonce@, e.ciphertext@) {
        Some(pt) => Ok(pt),
        None => Err(SecureStoreError::DecryptionFailed),
    }
}

/// Decrypts data with a passphrase; fails when the tag does not verify
/// (wrong passphrase or altered data).
pub fn decrypt(encrypted: &EncryptedData, passphrase: &[u8]) -> (r: Result<Vec<u8>, SecureStoreError>)
    requires
        passphrase@.len() <= 0xFFFF_FFFF,
    ensures
        match r {
            Ok(pt) => decrypt_result(*encrypted, passphrase@) == Ok::<Seq<u8>, SecureStoreError>(pt@),
            Err(e) => decrypt_result(*encrypted, passphrase@) == Err::<Seq<u8>, SecureStoreError>(e),
        },
{
    let mut key = derive_key(passphrase, &encrypted.salt);
    let pt = aead_open(&key, &encrypted.nonce, encrypted.ciphertext.as_slice());
    crate::rng::wipe_array32(&mut key);
    match pt {
        Some(p) => Ok(p),
        None => Err(SecureStoreError::DecryptionFailed),
    }
}

/// The lowercase hexadecimal digits of bytes.
pub open spec fn hex_digit(n: int) -> char {
    if n < 10 { ((48 + n) as u8) as char } else { ((87 + n) as u8) as char }
}

pub open spec fn hex_chars(b: Seq<u8>) -> Seq<char>
    decreases b.len(),
{
    if b.len() == 0 {
        Seq::empty()
    } else {
        seq![hex_digit(b[0] as int / 16), hex_digit(b[0] as int % 16)] + hex_chars(b.drop_first())
    }
}

/// Calls `hex::encode`. Claims: two lowercase hexadecimal digits per byte,
/// high nibble first.
#[verifier::external_body]
pub(crate) fn hex_encode(b: &[u8]) -> (s: String)
    ensures
        s@ == hex_chars(b@),
{
    hex::encode(b)
}

/// A short fingerprint of the ciphertext for display: the hex encoding of
/// the first 8 bytes of its SHA-256 digest.
pub fn fingerprint(data: &EncryptedData) -> (s: String)
    ensures
        s@ == hex_chars(crate::hashing::spec_sha256(data.ciphertext@).subrange(0, 8)),
{
    let h = crate::hashing::sha256(data.ciphertext.as_slice());
    let mut first: Vec<u8> = Vec::new();
    let mut i: usize = 0;
    while i < 8
        invariant
            0 <= i <= 8,
            h@.len() == 32,
            first@ == h@.subrange(0, i as int),
        decreases 8 - i,
    {
        first.push(h[i]);
        i = i + 1;
        assert(first@ =~= h@.subrange(0, i as int));
    }
    hex_encode(first.as_slice())
}

/// Encrypting and then decrypting with the same passphrase gives the
/// plaintext back.
pub proof fn law_decrypt_inverts_encrypt(e: EncryptedData, passphrase: Seq<u8>, plaintext: Seq<u8>)
    requires
        spec_aead_open(spec_derive_key(passphrase, e.salt@), e.nonce@, e.ciphertext@) == Some(plaintext),
    ensures
        decrypt_result(e, passphrase) == Ok::<Seq<u8>, SecureStoreError>(plaintext),
{
}

} // verus!
