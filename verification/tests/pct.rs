use curve25519_dalek::Scalar;
use specter::blind::schnorr_blind::{blind_challenge, new_session, unblind_signature, verify};
use specter::blind::types::SignerKeypair;
use specter::credential::credential::Attributes;
use specter::credential::issuer::Issuer;
use specter::credential::presentation::{create_presentation, ATTR_KYC_PASSED, ATTR_NOT_SANCTIONED};
use specter::group::{random_scalar, scalar_from_u64};
use specter::offline::vdf;
use specter::pct::nullifier::{compute_nullifier, LoadError, NullifierSet};
use specter::pct::secure_store::{decrypt, encrypt, fingerprint, SecureStoreError};
use specter::pct::serde_token::{
    deserialize_encrypted, deserialize_token, serialize_encrypted, serialize_token, serialize_token_public, serialized_size,
    SerdeError, OWNER_SECRET_OFFSET,
};
use specter::pct::signer::{verify_schnorr, SgxEnclaveSigner, SignerError, SoftwareSigner, WalletSigner, YubiHsmSigner};
use specter::fold::accumulator::{derive_owner_signing_pk, owner_pk_hash, FoldError};
use specter::pct::token::{advance_hash_chain, FoldProof, ProofCarryingToken, ValueProof};
use specter::pct::transfer::{check_double_spend, transfer, TransferError};
use specter::pct::verify::build_signed_message;
use specter::pct::wallet::{Wallet, WalletError};
use specter::primitives::pedersen::PedersenParams;

fn base_mul(s: &[u8; 32]) -> [u8; 32] {
    (Scalar::from_canonical_bytes(*s).unwrap() * curve25519_dalek::constants::RISTRETTO_BASEPOINT_POINT)
        .compress()
        .to_bytes()
}

fn random_id() -> [u8; 32] {
    let mut id = [0u8; 32];
    id.copy_from_slice(&random_scalar());
    id[31] ^= 0x5a;
    id
}

/// Issues tokens the way the mint does, with a single signing key.
struct TestMint {
    signer: SignerKeypair,
    pedersen: PedersenParams,
    issuer: Issuer,
    recursion_bound: u32,
}

impl TestMint {
    fn new(recursion_bound: u32) -> Self {
        TestMint { signer: SignerKeypair::generate(), pedersen: PedersenParams::new(), issuer: Issuer::new(), recursion_bound }
    }

    fn issue(&self, value: u64, attributes: Option<&Attributes>) -> ProofCarryingToken {
        self.issue_full(value, attributes, None, None)
    }

    fn issue_full(&self, value: u64, attributes: Option<&Attributes>, vdf_iterations: Option<u64>, bond: Option<[u8; 32]>) -> ProofCarryingToken {
        let token_id = random_id();
        let owner_secret = random_id();
        let blinding = random_scalar();
        let value_commitment = self.pedersen.commit(&scalar_from_u64(value), &blinding);
        let msg = build_signed_message(&token_id, &value_commitment);
        let (session, r) = new_session();
        let (factors, bc) = blind_challenge(&r, &self.signer.public, &msg).unwrap();
        let s_prime = session.respond(&bc, self.signer.secret());
        let mint_signature = unblind_signature(&s_prime, &factors, &r, &self.signer.public, &msg).unwrap();
        let credential = attributes.map(|a| self.issuer.issue(a));
        let presentation = credential
            .as_ref()
            .map(|c| create_presentation(c, &[ATTR_KYC_PASSED, ATTR_NOT_SANCTIONED], &self.issuer.pedersen));
        let vdf_proof = vdf_iterations.map(|it| vdf::evaluate(&vdf::create_seed(&token_id, 0), it));
        let pk = derive_owner_signing_pk(&owner_secret);
        ProofCarryingToken {
            token_id,
            value,
            value_commitment,
            value_proof: ValueProof { commitment: base_mul(&random_scalar()), response: random_scalar() },
            mint_signature,
            owner_secret,
            hash_chain_head: advance_hash_chain(&[0u8; 32], &token_id),
            transfer_count: 0,
            recursion_bound: self.recursion_bound,
            fold_proof: FoldProof {
                s: random_scalar(),
                e: random_scalar(),
                r: base_mul(&random_scalar()),
                pk,
                state_hash: [1u8; 32],
                pk_chain_hash: [2u8; 32],
                genesis_state_hash: [3u8; 32],
                current_owner_hash: owner_pk_hash(&pk),
                steps: 0,
            },
            genesis_owner_hash: [5u8; 32],
            credential,
            presentation,
            vdf_proof,
            bond_owner_id: bond,
        }
    }

    fn signature_ok(&self, t: &ProofCarryingToken) -> bool {
        verify(&self.signer.public, &t.signed_message(), &t.mint_signature)
    }
}

fn test_attrs() -> Attributes {
    Attributes { kyc_passed: true, not_sanctioned: true, jurisdiction: "EU".to_string(), age_over_18: true, expires_at: 0 }
}

// ── Nullifiers ──────────────────────────────────────────────────────────

#[test]
fn nullifier_test_nullifier_deterministic() {
    let secret = [1u8; 32];
    let token_id = [2u8; 32];
    assert_eq!(compute_nullifier(&secret, &token_id), compute_nullifier(&secret, &token_id));
}

#[test]
fn test_different_secrets_different_nullifiers() {
    let token_id = [0u8; 32];
    assert_ne!(compute_nullifier(&[1u8; 32], &token_id), compute_nullifier(&[2u8; 32], &token_id));
}

#[test]
fn test_different_tokens_different_nullifiers() {
    let secret = [1u8; 32];
    assert_ne!(compute_nullifier(&secret, &[1u8; 32]), compute_nullifier(&secret, &[2u8; 32]));
}

#[test]
fn test_nullifier_set_insert_and_detect() {
    let mut set = NullifierSet::new();
    let nullifier = [42u8; 32];
    assert!(set.insert(nullifier));
    assert!(!set.insert(nullifier));
}

#[test]
fn test_nullifier_set_contains() {
    let mut set = NullifierSet::new();
    let nullifier = [42u8; 32];
    assert!(!set.contains(&nullifier));
    set.insert(nullifier);
    assert!(set.contains(&nullifier));
}

#[test]
fn test_nullifier_set_multiple() {
    let mut set = NullifierSet::new();
    for i in 0u8..10 {
        let mut n = [0u8; 32];
        n[0] = i;
        assert!(set.insert(n));
    }
    assert_eq!(set.len(), 10);
}

#[test]
fn test_file_backed_basic_insert_and_reload() {
    let mut set = NullifierSet::new();
    assert!(set.insert([1u8; 32]));
    assert!(set.insert([2u8; 32]));
    let stored = set.to_stored();
    let reloaded = NullifierSet::from_stored(&stored).unwrap();
    assert_eq!(reloaded.len(), 2);
    assert!(reloaded.contains(&[1u8; 32]));
    assert!(reloaded.contains(&[2u8; 32]));
}

#[test]
fn test_file_backed_double_spend_across_restarts() {
    let mut set = NullifierSet::new();
    assert!(set.insert([7u8; 32]));
    let stored = set.to_stored();
    let mut reloaded = NullifierSet::from_stored(&stored).unwrap();
    assert!(!reloaded.insert([7u8; 32]), "double-spend must be detected after a restart");
}

#[test]
fn test_file_backed_creates_new_file() {
    let set = NullifierSet::from_stored(&[]).unwrap();
    assert!(set.is_empty());
    assert_eq!(set.to_stored(), Vec::<u8>::new());
}

#[test]
fn nullifier_store_rejects_partial_entries() {
    assert_eq!(NullifierSet::from_stored(&[0u8; 33]).err(), Some(LoadError::InvalidSize { len: 33 }));
    let stored = [[3u8; 32], [4u8; 32]].concat();
    assert_eq!(NullifierSet::from_stored(&stored).unwrap().len(), 2);
}

// ── Secure storage ──────────────────────────────────────────────────────

#[test]
fn test_short_passphrase_returns_error() {
    let result = encrypt(b"data", b"short");
    assert_eq!(result.unwrap_err(), SecureStoreError::PassphraseTooShort { min: 12, got: 5 });
}

#[test]
fn test_fingerprint() {
    let encrypted = encrypt(b"data", b"pass-min12-ok").unwrap();
    let fp = fingerprint(&encrypted);
    assert_eq!(fp.len(), 16);
    assert!(fp.chars().all(|c| c.is_ascii_hexdigit() && !c.is_ascii_uppercase()));
}

// ── Tokens ──────────────────────────────────────────────────────────────

#[test]
fn test_needs_renewal() {
    let mut token = TestMint::new(20).issue(100, None);
    assert!(!token.needs_renewal());
    token.transfer_count = 19;
    assert!(!token.needs_renewal());
    token.transfer_count = 20;
    assert!(token.needs_renewal());
}

#[test]
fn token_test_nullifier_deterministic() {
    let token = TestMint::new(20).issue(100, None);
    assert_eq!(token.compute_nullifier(), token.compute_nullifier());
    assert_eq!(token.compute_nullifier(), compute_nullifier(&token.owner_secret, &token.token_id));
}

#[test]
fn test_hash_chain_advances() {
    let head = [0u8; 32];
    let new_head = advance_hash_chain(&head, b"transfer-1");
    assert_ne!(head, new_head);
    let newer = advance_hash_chain(&new_head, b"transfer-2");
    assert_ne!(new_head, newer);
    assert_ne!(head, newer);
}

#[test]
fn test_hash_chain_deterministic() {
    let head = [0u8; 32];
    assert_eq!(advance_hash_chain(&head, b"data"), advance_hash_chain(&head, b"data"));
}

#[test]
fn test_estimated_size() {
    let token = TestMint::new(20).issue(100, None);
    assert!(token.estimated_size() > 200);
}

#[test]
fn signed_message_is_id_and_commitment() {
    let token = TestMint::new(20).issue(100, None);
    let m = token.signed_message();
    assert_eq!(m, [token.token_id, token.value_commitment].concat());
    assert_eq!(m, build_signed_message(&token.token_id, &token.value_commitment));
    assert!(!token.has_credential());
    assert!(!token.has_bond());
}

// ── Transfers ───────────────────────────────────────────────────────────

#[test]
fn test_transfer_updates_fold_proof() {
    let token = TestMint::new(5).issue(1000, None);
    let mut ns = NullifierSet::new();
    let result = transfer(token, &mut ns).unwrap();
    assert_eq!(result.token.fold_proof.steps, 1);
}

#[test]
fn test_transfer_chain_with_fold() {
    let token = TestMint::new(5).issue(1000, None);
    let mut ns = NullifierSet::new();
    let mut current = token;
    for i in 0..5 {
        let result = transfer(current, &mut ns).unwrap();
        assert_eq!(result.token.fold_proof.steps, i + 1);
        current = result.token;
    }
    assert!(transfer(current, &mut ns).is_err());
}

#[test]
fn test_double_spend_detected() {
    let token1 = TestMint::new(5).issue(1000, None);
    let mut ns = NullifierSet::new();
    let nullifier = token1.compute_nullifier();
    let _r1 = transfer(token1, &mut ns).unwrap();
    assert!(!ns.insert(nullifier), "double-spend must be detected");
}

#[test]
fn transfer_result_fields() {
    let token = TestMint::new(5).issue(1000, None);
    let before = token.clone();
    let mut ns = NullifierSet::new();
    let r = transfer(token, &mut ns).unwrap();
    assert_eq!(r.spent_nullifier, before.compute_nullifier());
    assert_eq!(r.token.transfer_count, 1);
    assert_eq!(r.token.value, before.value);
    assert_eq!(r.token.token_id, before.token_id);
    assert_ne!(r.token.owner_secret, before.owner_secret);
    assert_eq!(r.token.hash_chain_head, advance_hash_chain(&before.hash_chain_head, &r.token.owner_secret));
    assert!(ns.contains(&r.spent_nullifier));
}

#[test]
fn transfer_errors() {
    let m = TestMint::new(5);
    let mut ns = NullifierSet::new();
    let mut exhausted = m.issue(10, None);
    exhausted.transfer_count = 5;
    assert_eq!(transfer(exhausted, &mut ns).err(), Some(TransferError::NeedsRenewal { transfer_count: 5, bound: 5 }));
    let mut zero = m.issue(10, None);
    zero.value = 0;
    assert_eq!(transfer(zero, &mut ns).err(), Some(TransferError::InvalidTokenValue));
    let t = m.issue(10, None);
    let n = t.compute_nullifier();
    assert!(ns.insert(n));
    assert_eq!(transfer(t, &mut ns).err(), Some(TransferError::DoubleSpend { nullifier: n }));
    assert_eq!(check_double_spend(&mut ns, &n), Err(TransferError::DoubleSpend { nullifier: n }));
    assert_eq!(check_double_spend(&mut ns, &[9u8; 32]), Ok(()));
}

// ── Serialization ───────────────────────────────────────────────────────

#[test]
fn test_serialize_deserialize_basic() {
    let token = TestMint::new(20).issue(1000, None);
    let bytes = serialize_token(&token);
    let recovered = deserialize_token(&bytes).unwrap();
    assert_eq!(recovered.token_id, token.token_id);
    assert_eq!(recovered.value, token.value);
    assert_eq!(recovered.transfer_count, token.transfer_count);
    assert_eq!(recovered.recursion_bound, token.recursion_bound);
    assert_eq!(recovered.owner_secret, token.owner_secret);
    assert_eq!(recovered.hash_chain_head, token.hash_chain_head);
}

#[test]
fn test_serialize_deserialize_with_credential() {
    let token = TestMint::new(20).issue(500, Some(&test_attrs()));
    let bytes = serialize_token(&token);
    let recovered = deserialize_token(&bytes).unwrap();
    assert!(recovered.credential.is_some());
    assert!(recovered.presentation.is_some());
    let cred = recovered.credential.as_ref().unwrap();
    assert!(cred.attributes.kyc_passed);
    assert!(cred.attributes.not_sanctioned);
    assert_eq!(cred.attributes.jurisdiction, "EU");
    assert!(cred.attributes.age_over_18);
}

#[test]
fn test_serialize_deserialize_with_vdf_and_bond() {
    let token = TestMint::new(20).issue_full(500, Some(&test_attrs()), Some(50), Some([99u8; 32]));
    let bytes = serialize_token(&token);
    let recovered = deserialize_token(&bytes).unwrap();
    assert!(recovered.vdf_proof.is_some());
    assert_eq!(recovered.bond_owner_id, Some([99u8; 32]));
    let vdf = recovered.vdf_proof.as_ref().unwrap();
    assert_eq!(vdf.iterations, 50);
}

#[test]
fn test_serialize_after_transfers() {
    let token = TestMint::new(20).issue(1000, Some(&test_attrs()));
    let mut ns = NullifierSet::new();
    let mut current = token;
    for _ in 0..5 {
        current = transfer(current, &mut ns).unwrap().token;
    }
    let bytes = serialize_token(&current);
    let recovered = deserialize_token(&bytes).unwrap();
    assert_eq!(recovered.transfer_count, 5);
    assert_eq!(recovered.fold_proof.steps, 5);
    assert_eq!(recovered.value, 1000);
}

#[test]
fn test_tampered_bytes_fails() {
    let token = TestMint::new(20).issue(500, None);
    let mut bytes = serialize_token(&token);
    bytes[37] ^= 0xFF;
    let recovered = deserialize_token(&bytes).unwrap();
    assert_ne!(recovered.value, token.value);
}

#[test]
fn test_invalid_magic_fails() {
    let result = deserialize_token(b"FAKE\x01rest...");
    assert!(result.is_err());
    assert_eq!(result.unwrap_err(), SerdeError::InvalidMagic);
}

#[test]
fn test_truncated_data_fails() {
    let token = TestMint::new(20).issue(500, None);
    let bytes = serialize_token(&token);
    let truncated = &bytes[..bytes.len() / 2];
    assert!(matches!(deserialize_token(truncated), Err(SerdeError::BufferTooShort { .. })));
}

#[test]
fn test_real_token_sizes() {
    let m = TestMint::new(20);
    let basic = m.issue(1000, None);
    let basic_size = serialized_size(&basic);
    assert!(basic_size > 300);
    assert!(basic_size < 600);
    let full = m.issue_full(1000, Some(&test_attrs()), Some(50), Some([1u8; 32]));
    let full_size = serialized_size(&full);
    assert!(full_size > basic_size);
    assert!(full_size < 2000);
    let mut ns = NullifierSet::new();
    let mut transferred = m.issue_full(1000, Some(&test_attrs()), Some(50), Some([1u8; 32]));
    for _ in 0..10 {
        transferred = transfer(transferred, &mut ns).unwrap().token;
    }
    let transferred_size = serialized_size(&transferred);
    assert!((transferred_size as i64 - full_size as i64).unsigned_abs() < 50);
    assert_eq!(serialize_token(&full).len(), full_size);
}

#[test]
fn test_encrypted_owner_secret_not_visible() {
    let token = TestMint::new(20).issue(1000, None);
    let owner_secret = token.owner_secret;
    let encrypted = serialize_encrypted(&token, b"pass-min12-ok").unwrap();
    let secret_in_ciphertext = encrypted.ciphertext.windows(32).any(|window| window == owner_secret);
    assert!(!secret_in_ciphertext, "owner_secret found in ciphertext - encryption failed");
}

#[test]
fn test_serialize_encrypted_rejects_short_passphrase() {
    let token = TestMint::new(20).issue(100, None);
    assert_eq!(
        serialize_encrypted(&token, b"short").unwrap_err(),
        SerdeError::Storage(SecureStoreError::PassphraseTooShort { min: 12, got: 5 })
    );
}

#[test]
fn decoded_token_keeps_its_signature() {
    let m = TestMint::new(20);
    let token = m.issue(42, Some(&test_attrs()));
    assert!(m.signature_ok(&token));
    let recovered = deserialize_token(&serialize_token(&token)).unwrap();
    assert!(m.signature_ok(&recovered));
    assert_eq!(serialize_token(&recovered), serialize_token(&token));
}

#[test]
fn public_encoding_hides_owner_secret() {
    let token = TestMint::new(20).issue(42, None);
    let public = serialize_token_public(&token);
    let full = serialize_token(&token);
    assert_eq!(public.len(), full.len());
    assert_eq!(&public[OWNER_SECRET_OFFSET..OWNER_SECRET_OFFSET + 32], &[0u8; 32]);
    assert_eq!(&full[OWNER_SECRET_OFFSET..OWNER_SECRET_OFFSET + 32], &token.owner_secret);
}

#[test]
fn deserialize_error_variants() {
    let token = TestMint::new(20).issue(42, None);
    let bytes = serialize_token(&token);
    let mut v = bytes.clone();
    v[4] = 2;
    assert_eq!(deserialize_token(&v).unwrap_err(), SerdeError::UnsupportedVersion(2));
    let mut z = bytes.clone();
    z[37..45].copy_from_slice(&0u64.to_le_bytes());
    assert_eq!(deserialize_token(&z).unwrap_err(), SerdeError::ZeroValue);
    let mut p = bytes.clone();
    p[45..77].copy_from_slice(&[0xffu8; 32]);
    assert_eq!(deserialize_token(&p).unwrap_err(), SerdeError::InvalidPoint { offset: 45 });
}

// ── Signers ─────────────────────────────────────────────────────────────

#[test]
fn test_software_signer_roundtrip() {
    let s = SoftwareSigner::generate();
    let msg = b"hello wallet";
    let sig = s.sign(msg).unwrap();
    assert!(s.verify(msg, &sig));
    assert!(verify_schnorr(&s.public(), msg, &sig));
}

#[test]
fn test_software_signer_wrong_msg_rejected() {
    let s = SoftwareSigner::generate();
    let sig = s.sign(b"original").unwrap();
    assert!(!s.verify(b"tampered", &sig));
}

#[test]
fn test_software_signer_wrong_pk_rejected() {
    let a = SoftwareSigner::generate();
    let b = SoftwareSigner::generate();
    let sig = a.sign(b"msg").unwrap();
    assert!(!verify_schnorr(&b.public(), b"msg", &sig));
}

#[test]
fn test_two_signatures_of_same_message_differ() {
    let s = SoftwareSigner::generate();
    let msg = b"same msg";
    let sig1 = s.sign(msg).unwrap();
    let sig2 = s.sign(msg).unwrap();
    assert!(s.verify(msg, &sig1));
    assert!(s.verify(msg, &sig2));
    assert_ne!(sig1, sig2);
}

#[test]
fn test_yubi_hsm_stub_returns_unimplemented() {
    let stub = YubiHsmSigner { public: [0u8; 32] };
    let err = stub.sign(b"msg").unwrap_err();
    assert!(matches!(err, SignerError::Unimplemented(_)));
}

#[test]
fn test_sgx_stub_returns_unimplemented() {
    let stub = SgxEnclaveSigner { public: [0u8; 32] };
    assert!(matches!(stub.sign(b"msg"), Err(SignerError::Unimplemented(_))));
}

#[test]
fn test_signer_is_send_sync() {
    fn assert_send_sync<T: Send + Sync>() {}
    assert_send_sync::<SoftwareSigner>();
    assert_send_sync::<YubiHsmSigner>();
    assert_send_sync::<SgxEnclaveSigner>();
}

#[test]
fn software_signer_from_secret_key() {
    let sk = random_scalar();
    let s = SoftwareSigner::from_secret(sk);
    assert_eq!(s.public(), base_mul(&sk));
    let sig = s.sign_message(b"m");
    assert!(verify_schnorr(&base_mul(&sk), b"m", &sig));
}

// ── Wallet ──────────────────────────────────────────────────────────────

fn load_wallet(m: &TestMint, data: &[u8], pass: &[u8]) -> Result<Wallet, WalletError> {
    Wallet::load(data, pass, |t: &ProofCarryingToken| m.signature_ok(t))
}

#[test]
fn test_empty_wallet() {
    let wallet = Wallet::new();
    assert!(wallet.is_empty());
    assert_eq!(wallet.balance(), 0);
    assert_eq!(wallet.token_count(), 0);
}

#[test]
fn test_add_and_balance() {
    let m = TestMint::new(5);
    let mut wallet = Wallet::new();
    wallet.add_token(m.issue(100, None));
    wallet.add_token(m.issue(200, None));
    wallet.add_token(m.issue(500, None));
    assert_eq!(wallet.balance(), 800);
    assert_eq!(wallet.token_count(), 3);
}

#[test]
fn test_select_token_smallest_fit() {
    let m = TestMint::new(5);
    let mut wallet = Wallet::new();
    wallet.add_token(m.issue(100, None));
    wallet.add_token(m.issue(500, None));
    wallet.add_token(m.issue(1000, None));
    assert_eq!(wallet.select_token(400).unwrap().value, 500);
    assert_eq!(wallet.select_token(100).unwrap().value, 100);
    assert!(wallet.select_token(2000).is_none());
}

#[test]
fn test_select_skips_renewal_needed() {
    let m = TestMint::new(5);
    let mut wallet = Wallet::new();
    let token = m.issue(100, None);
    let mut ns = NullifierSet::new();
    let mut current = token;
    for _ in 0..5 {
        current = transfer(current, &mut ns).unwrap().token;
    }
    wallet.add_token(current);
    wallet.add_token(m.issue(500, None));
    assert_eq!(wallet.select_token(50).unwrap().value, 500);
}

#[test]
fn test_remove_token() {
    let m = TestMint::new(5);
    let mut wallet = Wallet::new();
    let token = m.issue(100, None);
    let id = token.token_id;
    wallet.add_token(token);
    assert_eq!(wallet.token_count(), 1);
    let removed = wallet.remove_token(&id).unwrap();
    assert_eq!(removed.value, 100);
    assert!(wallet.is_empty());
}

#[test]
fn test_tokens_needing_renewal() {
    let m = TestMint::new(5);
    let mut wallet = Wallet::new();
    wallet.add_token(m.issue(100, None));
    let token = m.issue(200, None);
    let mut ns = NullifierSet::new();
    let mut current = token;
    for _ in 0..5 {
        current = transfer(current, &mut ns).unwrap().token;
    }
    wallet.add_token(current);
    let needing = wallet.tokens_needing_renewal();
    assert_eq!(needing.len(), 1);
    assert_eq!(needing[0].value, 200);
}

#[test]
fn test_list_tokens() {
    let m = TestMint::new(5);
    let mut wallet = Wallet::new();
    wallet.add_token(m.issue(100, None));
    wallet.add_token(m.issue(200, None));
    let list = wallet.list_tokens();
    assert_eq!(list.len(), 2);
    assert_eq!(list[0].value, 100);
    assert_eq!(list[1].value, 200);
}

#[test]
fn test_total_storage() {
    let m = TestMint::new(5);
    let mut wallet = Wallet::new();
    let a = m.issue(100, None);
    let b = m.issue(200, None);
    let expected = a.estimated_size() + b.estimated_size();
    wallet.add_token(a);
    wallet.add_token(b);
    assert!(wallet.total_storage_bytes() > 0);
    assert_eq!(wallet.total_storage_bytes(), expected);
}

#[test]
fn test_save_rejects_short_passphrase() {
    let m = TestMint::new(5);
    let mut wallet = Wallet::new();
    wallet.add_token(m.issue(100, None));
    let result = wallet.save(b"short");
    assert!(result.is_err(), "short passphrase must fail gracefully");
}

#[test]
fn wallet_take_token_removes_it() {
    let m = TestMint::new(5);
    let mut wallet = Wallet::new();
    wallet.add_token(m.issue(300, None));
    wallet.add_token(m.issue(50, None));
    let t = wallet.take_token(40).unwrap();
    assert_eq!(t.value, 50);
    assert_eq!(wallet.token_count(), 1);
    assert!(wallet.take_token(1000).is_none());
    assert!(wallet.add_token(m.issue(1, None)));
    assert_eq!(wallet.token_count(), 2);
}

// ── Whole-protocol guarantees ───────────────────────────────────────────

#[test]
fn test_nullifier_prevents_double_spend() {
    let token = TestMint::new(20).issue(1000, None);
    let mut ns = NullifierSet::new();
    let nullifier = token.compute_nullifier();
    let _ = transfer(token, &mut ns).unwrap();
    assert!(!ns.insert(nullifier), "nullifier must not be insertable twice");
}

#[test]
fn test_transfer_preserves_value() {
    let token = TestMint::new(20).issue(42_000, None);
    let original_value = token.value;
    let original_commitment = token.value_commitment;
    let mut ns = NullifierSet::new();
    let result = transfer(token, &mut ns).unwrap();
    assert_eq!(result.token.value, original_value);
    assert_eq!(result.token.value_commitment, original_commitment);
}

#[test]
fn test_token_move_semantics() {
    fn assert_sized<T: Sized>() {}
    assert_sized::<ProofCarryingToken>();
    let token = TestMint::new(20).issue(10, None);
    let mut ns = NullifierSet::new();
    let _ = transfer(token, &mut ns).unwrap();
}

#[test]
fn test_wallet_rejects_short_passphrase() {
    assert!(encrypt(b"data", b"short").is_err());
    let wallet = Wallet::new();
    assert!(wallet.save(b"short").is_err());
}

#[test]
fn test_random_scalar_never_zero() {
    for _ in 0..1000 {
        assert_ne!(random_scalar(), [0u8; 32]);
    }
}

#[test]
fn test_secret_key_zeroized_on_drop() {
    let kp = SignerKeypair::generate();
    drop(kp);
}

#[test]
fn test_deserialize_token_rejects_wallet_blob() {
    let m = TestMint::new(20);
    let mut wallet = Wallet::new();
    wallet.add_token(m.issue(100, None));
    let wallet_bytes = wallet.save(b"pass-min12-ok").unwrap();
    let res = deserialize_token(&wallet_bytes);
    assert!(res.is_err(), "wallet bytes must be rejected by the token parser (magic mismatch)");
}

#[test]
fn test_deserialize_token_rejects_random_bytes() {
    for seed in 0u8..16 {
        let mut buf = vec![seed; 1024];
        buf[0] = b'X';
        buf[1] = b'X';
        buf[2] = b'X';
        buf[3] = b'X';
        let res = deserialize_token(&buf);
        assert!(res.is_err(), "random bytes must not deserialize as a token");
    }
}

#[test]
fn test_deserialize_token_rejects_non_canonical_scalar() {
    let token = TestMint::new(20).issue(100, None);
    let mut bytes = serialize_token(&token);
    const VP_RESPONSE_OFFSET: usize = 4 + 1 + 32 + 8 + 32 + 32;
    for b in &mut bytes[VP_RESPONSE_OFFSET..VP_RESPONSE_OFFSET + 32] {
        *b = 0xFF;
    }
    let res = deserialize_token(&bytes);
    assert_eq!(res.unwrap_err(), SerdeError::InvalidScalar { offset: VP_RESPONSE_OFFSET });
}

#[test]
fn encrypting_nothing_gives_only_the_tag() {
    let encrypted = encrypt(b"", b"pass-min12-ok").unwrap();
    assert_eq!(encrypted.ciphertext.len(), 16);
}

#[test]
fn transfer_appends_a_step_signed_by_the_previous_owner() {
    let m = TestMint::new(20);
    let token = m.issue(100, None);
    let old_pk = token.fold_proof.pk;
    let mut ns = NullifierSet::new();
    let res = transfer(token, &mut ns).unwrap();
    let fp = res.token.fold_proof;
    assert_eq!(fp.pk, derive_owner_signing_pk(&res.token.owner_secret));
    assert_eq!(fp.current_owner_hash, owner_pk_hash(&fp.pk));
    let lhs = Scalar::from_canonical_bytes(fp.s).unwrap() * curve25519_dalek::constants::RISTRETTO_BASEPOINT_POINT;
    let r = curve25519_dalek::ristretto::CompressedRistretto(fp.r).decompress().unwrap();
    let pk = curve25519_dalek::ristretto::CompressedRistretto(old_pk).decompress().unwrap();
    assert_eq!(lhs, r + Scalar::from_canonical_bytes(fp.e).unwrap() * pk);
}

#[test]
fn transfer_refuses_a_token_whose_secret_is_not_the_current_owners() {
    let m = TestMint::new(20);
    let mut token = m.issue(100, None);
    token.owner_secret = random_id();
    let mut ns = NullifierSet::new();
    assert!(matches!(transfer(token, &mut ns), Err(TransferError::FoldFailed(FoldError::PrevOwnerMismatch))));
}
