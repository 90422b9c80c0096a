//! The computations of the authenticated SIGMA-I key exchange between two
//! nodes: checking the peer's hello, the transcript that binds both
//! identities and ephemeral keys, the transcript signatures, and the
//! session key. The hybrid variant also binds an ML-KEM shared secret.
//! Sending and receiving the messages is left to the caller.

use vstd::prelude::*;
use ml_kem::{EncodedSizeUser, KemCore};
use vstd::string::*;
use crate::bytes::le_nat;
use crate::hashing::{spec_sha256, spec_sha512};
use crate::scalar::{enc, sc, is_scalar, group_order};
use crate::group::{encodes, spec_dlog, ristretto_valid, spec_basepoint_mul, spec_point_mul, schnorr_holds};

verus! {

broadcast use crate::scalar::lemma_enc;

/// The two variants of the exchange.
#[derive(Clone, Copy, Debug, PartialEq, Eq, Structural)]
pub enum HandshakeMode {
    /// Ristretto ephemeral Diffie-Hellman only.
    Classical,
    /// Ristretto Diffie-Hellman and an ML-KEM-768 shared secret.
    Hybrid,
}

/// Why a peer's hello is refused.
#[derive(Clone, Copy, Debug, PartialEq, Eq, Structural)]
pub enum HelloError {
    /// The peer's long-term key does not decode.
    InvalidIdentity,
    /// The peer's ephemeral key does not decode.
    InvalidEphemeral,
    /// The peer's long-term key is not the one expected.
    IdentityMismatch,
}

pub open spec fn transcript_label(m: HandshakeMode) -> Seq<u8> {
    match m {
        HandshakeMode::Classical => "specter-sigma-transcript:".spec_bytes(),
        HandshakeMode::Hybrid => "specter-hybrid-sigma-transcript:".spec_bytes(),
    }
}

pub open spec fn signature_label(m: HandshakeMode) -> Seq<u8> {
    match m {
        HandshakeMode::Classical => "specter-sigma-sig:".spec_bytes(),
        HandshakeMode::Hybrid => "specter-hybrid-sigma-sig:".spec_bytes(),
    }
}

pub open spec fn key_label(m: HandshakeMode) -> Seq<u8> {
    match m {
        HandshakeMode::Classical => "specter-sigma-key:".spec_bytes(),
        HandshakeMode::Hybrid => "specter-hybrid-sigma-key:".spec_bytes(),
    }
}

/// Lexicographic order of byte strings.
pub open spec fn lex_lt(a: Seq<u8>, b: Seq<u8>) -> bool
    decreases a.len(),
{
    if a.len() == 0 {
        b.len() > 0
    } else if b.len() == 0 {
        false
    } else if a[0] != b[0] {
        a[0] < b[0]
    } else {
        lex_lt(a.drop_first(), b.drop_first())
    }
}

/// The bytes hashed into the transcript: label, the two identities and
/// the two ephemeral keys in the order of the identities, the
/// Diffie-Hellman secret, and the KEM secret (empty when classical).
pub open spec fn transcript_input(
    m: HandshakeMode,
    my_id: Seq<u8>,
    my_ephem: Seq<u8>,
    their_id: Seq<u8>,
    their_ephem: Seq<u8>,
    shared: Seq<u8>,
    kem: Seq<u8>,
) -> Seq<u8> {
    if lex_lt(my_id, their_id) {
        transcript_label(m) + my_id + their_id + my_ephem + their_ephem + shared + kem
    } else {
        transcript_label(m) + their_id + my_id + their_ephem + my_ephem + shared + kem
    }
}

/// The transcript: the first 32 bytes of its SHA-512 digest.
pub open spec fn spec_transcript(
    m: HandshakeMode,
    my_id: Seq<u8>,
    my_ephem: Seq<u8>,
    their_id: Seq<u8>,
    their_ephem: Seq<u8>,
    shared: Seq<u8>,
    kem: Seq<u8>,
) -> Seq<u8> {
    spec_sha512(transcript_input(m, my_id, my_ephem, their_id, their_ephem, shared, kem)).subrange(0, 32)
}

/// The challenge of a transcript signature with nonce commitment `r` by `pk`.
pub open spec fn transcript_challenge(m: HandshakeMode, r: Seq<u8>, pk: Seq<u8>, msg: Seq<u8>) -> Seq<u8> {
    enc(le_nat(spec_sha512(signature_label(m) + r + pk + msg)) as int)
}

/// Whether `(r, s)` is a valid signature by `pk` on the transcript `msg`.
pub open spec fn transcript_signature_valid(m: HandshakeMode, r: Seq<u8>, s: [u8; 32], pk: Seq<u8>, msg: Seq<u8>) -> bool {
    &&& ristretto_valid(pk)
    &&& ristretto_valid(r)
    &&& is_scalar(s)
    &&& schnorr_holds(r, s@, transcript_challenge(m, r, pk, msg), pk)
}

/// The session key: SHA-256 of label, Diffie-Hellman secret and
/// transcript in the classical handshake; in the hybrid one, the first 32
/// bytes of the SHA-512 digest of label, Diffie-Hellman secret, KEM secret
/// and transcript.
pub open spec fn spec_session_key(m: HandshakeMode, shared: Seq<u8>, kem: Seq<u8>, transcript: Seq<u8>) -> Seq<u8> {
    match m {
        HandshakeMode::Classical => spec_sha256(key_label(m) + shared + kem + transcript),
        HandshakeMode::Hybrid => spec_sha512(key_label(m) + shared + kem + transcript).subrange(0, 32),
    }
}

fn transcript_label_bytes(m: HandshakeMode) -> (b: &'static str)
    ensures
        b.spec_bytes() == transcript_label(m),
{
    match m {
        HandshakeMode::Classical => "specter-sigma-transcript:",
        HandshakeMode::Hybrid => "specter-hybrid-sigma-transcript:",
    }
}

fn signature_label_bytes(m: HandshakeMode) -> (b: &'static str)
    ensures
        b.spec_bytes() == signature_label(m),
{
    match m {
        HandshakeMode::Classical => "specter-sigma-sig:",
        HandshakeMode::Hybrid => "specter-hybrid-sigma-sig:",
    }
}

fn key_label_bytes(m: HandshakeMode) -> (b: &'static str)
    ensures
        b.spec_bytes() == key_label(m),
{
    match m {
        HandshakeMode::Classical => "specter-sigma-key:",
        HandshakeMode::Hybrid => "specter-hybrid-sigma-key:",
    }
}

/// Whether `a` comes before `b` in lexicographic order.
pub fn bytes_lt(a: &[u8; 32], b: &[u8; 32]) -> (r: bool)
    ensures
        r == lex_lt(a@, b@),
{
    assert(a@.subrange(0, 32) =~= a@);
    assert(b@.subrange(0, 32) =~= b@);
    let mut i: usize = 0;
    while i < 32
        invariant
            0 <= i <= 32,
            a@.len() == 32 && b@.len() == 32,
            lex_lt(a@, b@) == lex_lt(a@.subrange(i as int, 32), b@.subrange(i as int, 32)),
        decreases 32 - i,
    {
        let ghost sa = a@.subrange(i as int, 32);
        let ghost sb = b@.subrange(i as int, 32);
        assert(sa.drop_first() =~= a@.subrange(i + 1, 32));
        assert(sb.drop_first() =~= b@.subrange(i + 1, 32));
        if a[i] != b[i] {
            return a[i] < b[i];
        }
        i = i + 1;
    }
    false
}

/// The verdict on a peer's hello.
pub open spec fn check_hello_spec(their_id: [u8; 32], their_ephem: [u8; 32], expected: Option<[u8; 32]>) -> Result<(), HelloError> {
    if !ristretto_valid(their_id@) {
        Err(HelloError::InvalidIdentity)
    } else if !ristretto_valid(their_ephem@) {
        Err(HelloError::InvalidEphemeral)
    } else if expected.is_some() && expected.unwrap()@ != their_id@ {
        Err(HelloError::IdentityMismatch)
    } else {
        Ok(())
    }
}

/// Checks the peer's hello: both keys must decode, and the long-term key
/// must be the expected one when one is given.
pub fn check_hello(their_id: &[u8; 32], their_ephem: &[u8; 32], expected: Option<[u8; 32]>) -> (r: Result<(), HelloError>)
    ensures
        r == check_hello_spec(*their_id, *their_ephem, expected),
{
    if !crate::group::point_is_valid(their_id) {
        return Err(HelloError::InvalidIdentity);
    }
    if !crate::group::point_is_valid(their_ephem) {
        return Err(HelloError::InvalidEphemeral);
    }
    match expected {
        Some(want) => {
            if !crate::ct::ct_eq32(&want, their_id) {
                return Err(HelloError::IdentityMismatch);
            }
        },
        None => {},
    }
    Ok(())
}

/// The Diffie-Hellman secret: the peer's ephemeral key times ours.
fn dh_shared(ephem_sk: &[u8; 32], their_ephem: &[u8; 32]) -> (s: [u8; 32])
    requires
        is_scalar(*ephem_sk),
        ristretto_valid(their_ephem@),
    ensures
        s@ == spec_point_mul(ephem_sk@, their_ephem@),
        encodes(s@, (sc(*ephem_sk) * spec_dlog(their_ephem@)) % (group_order() as int)),
{
    crate::group::point_mul(*ephem_sk, *their_ephem)
}

/// Checks the peer's hello (see `check_hello`) and, when it is accepted,
/// gives the Diffie-Hellman secret of our ephemeral key and the peer's.
pub fn accept_hello(
    ephem_sk: &[u8; 32],
    their_id: &[u8; 32],
    their_ephem: &[u8; 32],
    expected: Option<[u8; 32]>,
) -> (r: Result<[u8; 32], HelloError>)
    requires
        is_scalar(*ephem_sk),
    ensures
        match r {
            Ok(shared) => check_hello_spec(*their_id, *their_ephem, expected) == Ok::<(), HelloError>(())
                && shared@ == spec_point_mul(ephem_sk@, their_ephem@)
                && encodes(shared@, (sc(*ephem_sk) * spec_dlog(their_ephem@)) % (group_order() as int)),
            Err(e) => check_hello_spec(*their_id, *their_ephem, expected) == Err::<(), HelloError>(e),
        },
{
    match check_hello(their_id, their_ephem, expected) {
        Err(e) => Err(e),
        Ok(()) => Ok(dh_shared(ephem_sk, their_ephem)),
    }
}

/// The transcript both sides sign.
pub fn transcript(
    m: HandshakeMode,
    my_id: &[u8; 32],
    my_ephem: &[u8; 32],
    their_id: &[u8; 32],
    their_ephem: &[u8; 32],
    shared: &[u8; 32],
    kem: &[u8],
) -> (t: [u8; 32])
    ensures
        t@ == spec_transcript(m, my_id@, my_ephem@, their_id@, their_ephem@, shared@, kem@),
{
    let mut buf: Vec<u8> = Vec::new();
    crate::bytes::append_bytes(&mut buf, transcript_label_bytes(m).as_bytes());
    if bytes_lt(my_id, their_id) {
        crate::bytes::append_bytes(&mut buf, my_id);
        crate::bytes::append_bytes(&mut buf, their_id);
        crate::bytes::append_bytes(&mut buf, my_ephem);
        crate::bytes::append_bytes(&mut buf, their_ephem);
    } else {
        crate::bytes::append_bytes(&mut buf, their_id);
        crate::bytes::append_bytes(&mut buf, my_id);
        crate::bytes::append_bytes(&mut buf, their_ephem);
        crate::bytes::append_bytes(&mut buf, my_ephem);
    }
    crate::bytes::append_bytes(&mut buf, shared);
    crate::bytes::append_bytes(&mut buf, kem);
    let h = crate::hashing::sha512(buf.as_slice());
    crate::bytes::take32(&h)
}

fn challenge(m: HandshakeMode, r: &[u8; 32], pk: &[u8; 32], msg: &[u8; 32]) -> (e: [u8; 32])
    ensures
        is_scalar(e),
        e@ == transcript_challenge(m, r@, pk@, msg@),
{
    let mut buf: Vec<u8> = Vec::new();
    crate::bytes::append_bytes(&mut buf, signature_label_bytes(m).as_bytes());
    crate::bytes::append_bytes(&mut buf, r);
    crate::bytes::append_bytes(&mut buf, pk);
    crate::bytes::append_bytes(&mut buf, msg);
    let h = crate::hashing::sha512(buf.as_slice());
    crate::group::scalar_from_digest(&h)
}

/// Signs the transcript under the long-term secret `sk` (public key `pk`)
/// with a fresh random nonce `k`: `R = k·B`, `s = k + e·sk`.
pub fn sign_transcript(m: HandshakeMode, sk: &[u8; 32], pk: &[u8; 32], msg: &[u8; 32]) -> (sig: ([u8; 32], [u8; 32]))
    requires
        is_scalar(*sk),
    ensures
        ristretto_valid(sig.0@),
        is_scalar(sig.1),
        exists|k: [u8; 32]| is_scalar(k) && sig.0@ == spec_basepoint_mul(k@)
            && sig.1@ == #[trigger] enc(sc(k) + ((le_nat(transcript_challenge(m, sig.0@, pk@, msg@)) * sc(*sk)) % group_order()) as int),
        ristretto_valid(pk@) && encodes(pk@, sc(*sk) as int) ==> transcript_signature_valid(m, sig.0@, sig.1, pk@, msg@),
{
    let k = crate::group::random_scalar();
    let r = crate::group::basepoint_mul(k);
    let e = challenge(m, &r, pk, msg);
    let s = crate::group::schnorr_response(k, e, *sk);
    let sig = (r, s);
    assert(is_scalar(k) && sig.0@ == spec_basepoint_mul(k@)
        && sig.1@ == enc(sc(k) + ((le_nat(transcript_challenge(m, sig.0@, pk@, msg@)) * sc(*sk)) % group_order()) as int));
    proof {
        if encodes(pk@, sc(*sk) as int) {
            crate::group::lemma_schnorr_response_holds(r@, s@, e@, pk@, sc(k) as int, sc(*sk) as int);
        }
    }
    sig
}

/// Verifies the peer's signature on the transcript under its long-term key.
pub fn verify_transcript_signature(m: HandshakeMode, r: &[u8; 32], s: &[u8; 32], pk: &[u8; 32], msg: &[u8; 32]) -> (ok: bool)
    ensures
        ok == transcript_signature_valid(m, r@, *s, pk@, msg@),
{
    if !crate::group::point_is_valid(pk) {
        return false;
    }
    if !crate::group::point_is_valid(r) {
        return false;
    }
    match crate::group::scalar_from_canonical(*s) {
        None => false,
        Some(s) => {
            let e = challenge(m, r, pk, msg);
            crate::group::schnorr_check(*r, s, e, *pk)
        },
    }
}

/// The session key.
pub fn session_key(m: HandshakeMode, shared: &[u8; 32], kem: &[u8], msg: &[u8; 32]) -> (k: [u8; 32])
    ensures
        k@ == spec_session_key(m, shared@, kem@, msg@),
{
    let mut buf: Vec<u8> = Vec::new();
    crate::bytes::append_bytes(&mut buf, key_label_bytes(m).as_bytes());
    crate::bytes::append_bytes(&mut buf, shared);
    crate::bytes::append_bytes(&mut buf, kem);
    crate::bytes::append_bytes(&mut buf, msg);
    match m {
        HandshakeMode::Classical => crate::hashing::sha256(buf.as_slice()),
        HandshakeMode::Hybrid => {
            let h = crate::hashing::sha512(buf.as_slice());
            crate::bytes::take32(&h)
        },
    }
}

/// The last step: the session key when the peer's signature verifies,
/// `None` when it does not.
pub fn finish(
    m: HandshakeMode,
    their_id: &[u8; 32],
    their_r: &[u8; 32],
    their_s: &[u8; 32],
    shared: &[u8; 32],
    kem: &[u8],
    msg: &[u8; 32],
) -> (k: Option<[u8; 32]>)
    ensures
        match k {
            Some(key) => transcript_signature_valid(m, their_r@, *their_s, their_id@, msg@)
                && key@ == spec_session_key(m, shared@, kem@, msg@),
            None => !transcript_signature_valid(m, their_r@, *their_s, their_id@, msg@),
        },
{
    if !verify_transcript_signature(m, their_r, their_s, their_id, msg) {
        return None;
    }
    Some(session_key(m, shared, kem, msg))
}


/// Diffie-Hellman agreement: when each side's ephemeral public key is its
/// ephemeral secret times `B`, the secret that each side computes from
/// its own secret and the other's public key is the same element.
pub proof fn law_dh_agreement(a: [u8; 32], a_pub: Seq<u8>, b: [u8; 32], b_pub: Seq<u8>, shared_a: Seq<u8>, shared_b: Seq<u8>)
    requires
        is_scalar(a),
        is_scalar(b),
        encodes(a_pub, sc(a) as int),
        encodes(b_pub, sc(b) as int),
        encodes(shared_a, (sc(a) * spec_dlog(b_pub)) % (group_order() as int)),
        encodes(shared_b, (sc(b) * spec_dlog(a_pub)) % (group_order() as int)),
    ensures
        shared_a == shared_b,
{
    assert(sc(a) * sc(b) == sc(b) * sc(a)) by (nonlinear_arith);
}

/// Of two different byte strings of one length, exactly one comes first.
proof fn lemma_lex_total(a: Seq<u8>, b: Seq<u8>)
    requires
        a.len() == b.len(),
        a != b,
    ensures
        lex_lt(a, b) != lex_lt(b, a),
    decreases a.len(),
{
    if a.len() == 0 {
        assert(a =~= b);
    } else if a[0] == b[0] {
        if a.drop_first() == b.drop_first() {
            assert(a =~= b) by {
                assert forall|i: int| 0 <= i < a.len() implies a[i] == b[i] by {
                    if i > 0 {
                        assert(a[i] == a.drop_first()[i - 1]);
                        assert(b[i] == b.drop_first()[i - 1]);
                    }
                }
            }
        }
        lemma_lex_total(a.drop_first(), b.drop_first());
    }
}

/// Both sides of an exchange between two different identities hash the
/// same transcript input, whichever of them started: the transcript and
/// the session key do not depend on the roles.
pub proof fn law_transcript_independent_of_role(
    m: HandshakeMode,
    a_id: Seq<u8>,
    a_ephem: Seq<u8>,
    b_id: Seq<u8>,
    b_ephem: Seq<u8>,
    shared: Seq<u8>,
    kem: Seq<u8>,
)
    requires
        a_id.len() == 32,
        b_id.len() == 32,
        a_id != b_id,
    ensures
        transcript_input(m, a_id, a_ephem, b_id, b_ephem, shared, kem)
            == transcript_input(m, b_id, b_ephem, a_id, a_ephem, shared, kem),
        spec_transcript(m, a_id, a_ephem, b_id, b_ephem, shared, kem)
            == spec_transcript(m, b_id, b_ephem, a_id, a_ephem, shared, kem),
{
    lemma_lex_total(a_id, b_id);
}


/// Two parties with different identities that exchange their hellos over
/// an unaltered channel agree: each computes the same Diffie-Hellman
/// secret, the same transcript and the same session key (given the same
/// KEM secret). Each accepts the other's honest signature on that
/// transcript (see `sign_transcript`).
pub proof fn law_handshake_keys_agree(
    m: HandshakeMode,
    a_sk: [u8; 32],
    a_id: Seq<u8>,
    a_e: [u8; 32],
    a_epub: Seq<u8>,
    b_sk: [u8; 32],
    b_id: Seq<u8>,
    b_e: [u8; 32],
    b_epub: Seq<u8>,
    shared_a: Seq<u8>,
    shared_b: Seq<u8>,
    kem: Seq<u8>,
)
    requires
        is_scalar(a_sk),
        is_scalar(b_sk),
        is_scalar(a_e),
        is_scalar(b_e),
        a_id.len() == 32,
        b_id.len() == 32,
        a_id != b_id,
        encodes(a_id, sc(a_sk) as int),
        encodes(b_id, sc(b_sk) as int),
        encodes(a_epub, sc(a_e) as int),
        encodes(b_epub, sc(b_e) as int),
        encodes(shared_a, (sc(a_e) * spec_dlog(b_epub)) % (group_order() as int)),
        encodes(shared_b, (sc(b_e) * spec_dlog(a_epub)) % (group_order() as int)),
    ensures
        shared_a == shared_b,
        spec_transcript(m, a_id, a_epub, b_id, b_epub, shared_a, kem)
            == spec_transcript(m, b_id, b_epub, a_id, a_epub, shared_b, kem),
        spec_session_key(m, shared_a, kem, spec_transcript(m, a_id, a_epub, b_id, b_epub, shared_a, kem))
            == spec_session_key(m, shared_b, kem, spec_transcript(m, b_id, b_epub, a_id, a_epub, shared_b, kem)),
{
    law_dh_agreement(a_e, a_epub, b_e, b_epub, shared_a, shared_b);
    law_transcript_independent_of_role(m, a_id, a_epub, b_id, b_epub, shared_a, kem);
}

// ─── The ML-KEM-768 leg of the hybrid variant ──────────────────────────

/// Length of an ML-KEM-768 encapsulation key.
pub const KEM_EK_LEN: usize = 1184;
/// Length of an ML-KEM-768 ciphertext.
pub const KEM_CT_LEN: usize = 1088;
/// Length of an encoded ML-KEM-768 decapsulation key.
pub const KEM_DK_LEN: usize = 2400;

/// The shared secret that ML-KEM-768 decapsulation of `ct` under the
/// encoded decapsulation key `dk` gives.
pub uninterp spec fn spec_kem_decapsulate(dk: Seq<u8>, ct: Seq<u8>) -> Seq<u8>;

/// Calls `MlKem768::generate` with the operating system's generator and
/// encodes both keys. Claims only the lengths of the encodings.
#[verifier::external_body]
fn kem_generate() -> (r: (Vec<u8>, Vec<u8>))
    ensures
        r.0@.len() == KEM_DK_LEN,
        r.1@.len() == KEM_EK_LEN,
{
    let (dk, ek) = ml_kem::MlKem768::generate(&mut rand_core::OsRng);
    (dk.as_bytes().to_vec(), ek.as_bytes().to_vec())
}

/// Calls `Encapsulate::encapsulate` on the decoded encapsulation key with
/// the operating system's generator. Claims: it succeeds exactly on keys
/// of the right length, and the ciphertext has its fixed length; the
/// secret, which is random, is not described.
#[verifier::external_body]
fn kem_encapsulate(ek: &[u8]) -> (r: Option<(Vec<u8>, [u8; 32])>)
    ensures
        r.is_some() == (ek@.len() == KEM_EK_LEN),
        r.is_some() ==> r.unwrap().0@.len() == KEM_CT_LEN,
{
    let enc = ml_kem::Encoded::<<ml_kem::MlKem768 as KemCore>::EncapsulationKey>::try_from(ek).ok()?;
    let key = <<ml_kem::MlKem768 as KemCore>::EncapsulationKey as EncodedSizeUser>::from_bytes(&enc);
    let (ct, ss) = ml_kem::kem::Encapsulate::encapsulate(&key, &mut rand_core::OsRng).ok()?;
    let mut out = [0u8; 32];
    out.copy_from_slice(&ss);
    Some((ct.to_vec(), out))
}

/// Calls `Decapsulate::decapsulate` on the decoded decapsulation key.
/// Claims: it succeeds exactly on ciphertexts of the right length, and the
/// secret is a function of key and ciphertext.
#[verifier::external_body]
fn kem_decapsulate(dk: &[u8], ct: &[u8]) -> (r: Option<[u8; 32]>)
    requires
        dk@.len() == KEM_DK_LEN,
    ensures
        r.is_some() == (ct@.len() == KEM_CT_LEN),
        r.is_some() ==> r.unwrap()@ == spec_kem_decapsulate(dk@, ct@),
{
    let enc = ml_kem::Encoded::<<ml_kem::MlKem768 as KemCore>::DecapsulationKey>::try_from(dk).ok()?;
    let key = <<ml_kem::MlKem768 as KemCore>::DecapsulationKey as EncodedSizeUser>::from_bytes(&enc);
    let c = ml_kem::Ciphertext::<ml_kem::MlKem768>::try_from(ct).ok()?;
    let ss = ml_kem::kem::Decapsulate::decapsulate(&key, &c).ok()?;
    let mut out = [0u8; 32];
    out.copy_from_slice(&ss);
    Some(out)
}

/// A fresh ML-KEM-768 key pair: the encoded decapsulation key and the
/// encapsulation key the initiator sends.
pub fn kem_keypair() -> (r: (Vec<u8>, Vec<u8>))
    ensures
        r.0@.len() == KEM_DK_LEN,
        r.1@.len() == KEM_EK_LEN,
{
    kem_generate()
}

/// The responder's KEM step: a ciphertext to send back and the shared
/// secret, or `None` when the initiator's key has the wrong length.
pub fn kem_respond(their_ek: &[u8]) -> (r: Option<(Vec<u8>, [u8; 32])>)
    ensures
        r.is_some() == (their_ek@.len() == KEM_EK_LEN),
        r.is_some() ==> r.unwrap().0@.len() == KEM_CT_LEN,
{
    if their_ek.len() != KEM_EK_LEN {
        return None;
    }
    kem_encapsulate(their_ek)
}

/// The initiator's KEM step: the shared secret from the responder's
/// ciphertext, or `None` when it has the wrong length.
pub fn kem_receive(dk: &[u8], their_ct: &[u8]) -> (r: Option<[u8; 32]>)
    requires
        dk@.len() == KEM_DK_LEN,
    ensures
        match r {
            Some(ss) => their_ct@.len() == KEM_CT_LEN && ss@ == spec_kem_decapsulate(dk@, their_ct@),
            None => their_ct@.len() != KEM_CT_LEN,
        },
{
    if their_ct.len() != KEM_CT_LEN {
        return None;
    }
    kem_decapsulate(dk, their_ct)
}

} // verus!
