use rand::Rng;
use curve25519_dalek::ristretto::CompressedRistretto;
use curve25519_dalek::{RistrettoPoint, Scalar};
use specter::group::{hash_to_scalar, random_scalar, scalar_from_u64};
use specter::primitives::hardened::{
    blinded_scalar_mul, blinded_vartime_double_scalar_mul, random_scalar_ct, randomize_scalar_representation,
};
use specter::primitives::pedersen::PedersenParams;
use specter::primitives::range_proof::{prove_bit_or, prove_range_64, verify_bit_or, verify_range_64};
use specter::primitives::shamir::{reconstruct_secret, split_secret, ShamirError, Share};
use specter::primitives::sis::SisParams;

fn point(b: &[u8; 32]) -> RistrettoPoint {
    CompressedRistretto(*b).decompress().unwrap()
}

fn sc(b: &[u8; 32]) -> Scalar {
    Scalar::from_canonical_bytes(*b).unwrap()
}

fn base_mul(s: &[u8; 32]) -> [u8; 32] {
    (sc(s) * curve25519_dalek::constants::RISTRETTO_BASEPOINT_POINT).compress().to_bytes()
}

const BASE: [u8; 32] = [
    0xe2, 0xf2, 0xae, 0x0a, 0x6a, 0xbc, 0x4e, 0x71, 0xa8, 0x84, 0xa9, 0x61, 0xc5, 0x00, 0x51, 0x5f, 0x58, 0xe3, 0x0b,
    0x6a, 0xa5, 0x82, 0xdd, 0x8d, 0xb6, 0xa6, 0x59, 0x45, 0xe0, 0x8d, 0x2d, 0x76,
];

// ── Pedersen commitments ────────────────────────────────────────────────

#[test]
fn pedersen_test_commitment_roundtrip() {
    let params = PedersenParams::new();
    let value = scalar_from_u64(100);
    let blinding = random_scalar();
    let commitment = params.commit(&value, &blinding);
    assert!(params.verify_opening(&commitment, &value, &blinding));
}

#[test]
fn test_wrong_opening_fails() {
    let params = PedersenParams::new();
    let value = scalar_from_u64(100);
    let blinding = random_scalar();
    let commitment = params.commit(&value, &blinding);
    let wrong_value = scalar_from_u64(999);
    assert!(!params.verify_opening(&commitment, &wrong_value, &blinding));
    let wrong_blinding = random_scalar();
    assert!(!params.verify_opening(&commitment, &value, &wrong_blinding));
}

#[test]
fn test_homomorphic_addition() {
    let params = PedersenParams::new();
    let a = scalar_from_u64(30);
    let r1 = random_scalar();
    let ca = params.commit(&a, &r1);
    let b = scalar_from_u64(70);
    let r2 = random_scalar();
    let cb = params.commit(&b, &r2);
    let sum_commit = point(&ca) + point(&cb);
    let ab = (sc(&a) + sc(&b)).to_bytes();
    let r12 = (sc(&r1) + sc(&r2)).to_bytes();
    let expected = params.commit(&ab, &r12);
    assert_eq!(sum_commit.compress().to_bytes(), expected);
}

#[test]
fn test_different_values_different_commitments() {
    let params = PedersenParams::new();
    let blinding = random_scalar();
    let c1 = params.commit(&scalar_from_u64(10), &blinding);
    let c2 = params.commit(&scalar_from_u64(20), &blinding);
    assert_ne!(c1, c2);
}

#[test]
fn test_vector_commitment() {
    let params = PedersenParams::new();
    let values = vec![scalar_from_u64(1), scalar_from_u64(2), scalar_from_u64(3)];
    let blinding = random_scalar();
    let c = params.commit_vector(&values, &blinding);
    let c2 = params.commit_vector(&values, &blinding);
    assert_eq!(c, c2);
}

#[test]
fn test_homomorphic_many_values() {
    let params = PedersenParams::new();
    for i in 0..50u64 {
        let a = scalar_from_u64(i * 7 + 1);
        let b = scalar_from_u64(i * 13 + 3);
        let r1 = random_scalar();
        let r2 = random_scalar();
        let sum_commit = point(&params.commit(&a, &r1)) + point(&params.commit(&b, &r2));
        let direct = params.commit(&(sc(&a) + sc(&b)).to_bytes(), &(sc(&r1) + sc(&r2)).to_bytes());
        assert_eq!(sum_commit.compress().to_bytes(), direct, "failed at i={}", i);
    }
}

#[test]
fn pedersen_generators_are_distinct_points() {
    let params = PedersenParams::new();
    assert_ne!(params.g, params.h);
    assert_ne!(params.g, BASE);
    assert!(CompressedRistretto(params.h).decompress().is_some());
}

// ── Scalar helpers ──────────────────────────────────────────────────────

#[test]
fn test_random_scalar_nonzero() {
    let s = random_scalar();
    assert_ne!(s, [0u8; 32]);
}

#[test]
fn test_scalar_from_u64() {
    let s = scalar_from_u64(42);
    assert_ne!(s, [0u8; 32]);
    let mut expected = [0u8; 32];
    expected[0] = 42;
    assert_eq!(s, expected);
}

#[test]
fn test_hash_to_scalar_deterministic() {
    let a = hash_to_scalar(b"hello");
    let b = hash_to_scalar(b"hello");
    assert_eq!(a, b);
}

#[test]
fn test_hash_to_scalar_different_inputs() {
    let a = hash_to_scalar(b"hello");
    let b = hash_to_scalar(b"world");
    assert_ne!(a, b);
}

#[test]
fn hash_to_scalar_is_canonical_and_not_the_input() {
    let a = hash_to_scalar(&[7u8; 32]);
    assert!(bool::from(Scalar::from_canonical_bytes(a).is_some()));
    assert_ne!(a, [7u8; 32]);
}

// ── SIS commitments ─────────────────────────────────────────────────────

fn toy_params() -> SisParams {
    SisParams::generate(4, 8, 65537, 100)
}

#[test]
fn sis_test_commitment_roundtrip() {
    let params = toy_params();
    let message = vec![1, 2, 3, 4, 5, 6, 7, 8];
    let commitment = params.commit(&message).unwrap();
    assert!(params.verify_opening(&commitment, &message).unwrap());
}

#[test]
fn sis_test_wrong_message_fails() {
    let params = toy_params();
    let message = vec![1, 2, 3, 4, 5, 6, 7, 8];
    let commitment = params.commit(&message).unwrap();
    let wrong = vec![1, 2, 3, 4, 5, 6, 7, 9];
    assert!(!params.verify_opening(&commitment, &wrong).unwrap());
}

#[test]
fn test_wrong_length_rejected() {
    let params = toy_params();
    let short_message = vec![1, 2, 3];
    assert!(params.commit(&short_message).is_err());
}

#[test]
fn test_non_short_message_rejected() {
    let params = toy_params();
    let message = vec![1, 2, 3, 4, 5, 6, 7, 999];
    assert!(params.commit(&message).is_err());
}

#[test]
fn test_different_messages_different_commitments() {
    let params = toy_params();
    let m1 = vec![1, 0, 0, 0, 0, 0, 0, 0];
    let m2 = vec![0, 1, 0, 0, 0, 0, 0, 0];
    let c1 = params.commit(&m1).unwrap();
    let c2 = params.commit(&m2).unwrap();
    assert_ne!(c1, c2);
}

#[test]
fn test_zero_message_commits_to_zero() {
    let params = toy_params();
    let zero = vec![0; 8];
    let commitment = params.commit(&zero).unwrap();
    assert!(commitment.iter().all(|&v| v == 0));
}

#[test]
fn test_commitment_deterministic() {
    let params = toy_params();
    let message = vec![10, 20, 30, 40, 50, 60, 70, 80];
    let c1 = params.commit(&message).unwrap();
    let c2 = params.commit(&message).unwrap();
    assert_eq!(c1, c2);
}

#[test]
fn test_many_random_messages() {
    let params = toy_params();
    let mut rng = rand::thread_rng();
    for _ in 0..50 {
        let message: Vec<u64> = (0..8).map(|_| rng.gen_range(0..=100)).collect();
        let commitment = params.commit(&message).unwrap();
        assert!(params.verify_opening(&commitment, &message).unwrap());
    }
}

#[test]
fn sis_commitment_is_matrix_product() {
    let params = toy_params();
    let message = vec![1, 0, 0, 0, 0, 0, 0, 2];
    let c = params.commit(&message).unwrap();
    for i in 0..4 {
        let expected = (params.matrix_a[i][0] + 2 * params.matrix_a[i][7]) % 65537;
        assert_eq!(c[i], expected);
    }
}

// ── Shamir secret sharing ───────────────────────────────────────────────

#[test]
fn test_split_and_reconstruct_2_of_3() {
    let secret = scalar_from_u64(42);
    let shares = split_secret(&secret, 2, 3).unwrap();
    assert_eq!(shares.len(), 3);
    let recovered = reconstruct_secret(&shares[0..2]).unwrap();
    assert_eq!(recovered, secret);
    let recovered = reconstruct_secret(&shares[1..3]).unwrap();
    assert_eq!(recovered, secret);
    let recovered = reconstruct_secret(&[shares[0], shares[2]]).unwrap();
    assert_eq!(recovered, secret);
}

#[test]
fn test_split_and_reconstruct_3_of_5() {
    let secret = scalar_from_u64(12345);
    let shares = split_secret(&secret, 3, 5).unwrap();
    assert_eq!(shares.len(), 5);
    let recovered = reconstruct_secret(&shares[0..3]).unwrap();
    assert_eq!(recovered, secret);
    let recovered = reconstruct_secret(&shares[2..5]).unwrap();
    assert_eq!(recovered, secret);
}

#[test]
fn test_all_shares_reconstruct() {
    let secret = random_scalar();
    let shares = split_secret(&secret, 3, 5).unwrap();
    let recovered = reconstruct_secret(&shares).unwrap();
    assert_eq!(recovered, secret);
}

#[test]
fn test_1_of_1() {
    let secret = scalar_from_u64(99);
    let shares = split_secret(&secret, 1, 1).unwrap();
    assert_eq!(shares.len(), 1);
    let recovered = reconstruct_secret(&shares).unwrap();
    assert_eq!(recovered, secret);
}

#[test]
fn test_insufficient_shares_wrong_result() {
    let secret = scalar_from_u64(42);
    let shares = split_secret(&secret, 3, 5).unwrap();
    let recovered = reconstruct_secret(&shares[0..2]).unwrap();
    assert_ne!(recovered, secret);
}

#[test]
fn test_duplicate_x_rejected() {
    let share = Share { x: scalar_from_u64(1), y: scalar_from_u64(10) };
    let result = reconstruct_secret(&[share, share]);
    assert!(result.is_none());
}

#[test]
fn test_empty_shares() {
    let result = reconstruct_secret(&[]);
    assert!(result.is_none());
}

#[test]
fn test_random_secrets() {
    for _ in 0..20 {
        let secret = random_scalar();
        let shares = split_secret(&secret, 3, 5).unwrap();
        let recovered = reconstruct_secret(&shares[0..3]).unwrap();
        assert_eq!(recovered, secret);
    }
}

#[test]
fn test_zero_threshold_rejected() {
    let secret = scalar_from_u64(42);
    assert!(split_secret(&secret, 0, 3).is_err());
}

#[test]
fn test_threshold_exceeds_total_rejected() {
    let secret = scalar_from_u64(42);
    assert!(split_secret(&secret, 5, 3).is_err());
}

#[test]
fn test_zero_shares_rejected() {
    let secret = scalar_from_u64(42);
    assert!(split_secret(&secret, 0, 0).is_err());
}

#[test]
fn shamir_error_variants() {
    let secret = scalar_from_u64(1);
    assert_eq!(split_secret(&secret, 0, 3).unwrap_err(), ShamirError::ZeroThreshold);
    assert_eq!(split_secret(&secret, 2, 0).unwrap_err(), ShamirError::ZeroShares);
    assert_eq!(split_secret(&secret, 4, 3).unwrap_err(), ShamirError::ThresholdExceedsTotal { threshold: 4, total: 3 });
}

#[test]
fn shamir_shares_are_at_one_to_n() {
    let shares = split_secret(&scalar_from_u64(5), 2, 3).unwrap();
    for (i, s) in shares.iter().enumerate() {
        assert_eq!(s.x, scalar_from_u64(i as u64 + 1));
    }
    // A degree-0 polynomial: every share holds the secret.
    let flat = split_secret(&scalar_from_u64(5), 1, 3).unwrap();
    for s in flat.iter() {
        assert_eq!(s.y, scalar_from_u64(5));
    }
}

// ── Hardened scalar multiplication ──────────────────────────────────────

#[test]
fn test_blinded_scalar_mul_equivalence() {
    for _ in 0..50 {
        let s = random_scalar();
        let expected = base_mul(&s);
        let blinded = blinded_scalar_mul(&s, &BASE).unwrap();
        assert_eq!(blinded, expected);
    }
}

#[test]
fn test_blinded_scalar_mul_different_point() {
    let other_point = base_mul(&random_scalar());
    for _ in 0..20 {
        let s = random_scalar();
        let expected = (sc(&s) * point(&other_point)).compress().to_bytes();
        assert_eq!(blinded_scalar_mul(&s, &other_point).unwrap(), expected);
    }
}

#[test]
fn test_blinded_double_scalar_mul_equivalence() {
    for _ in 0..30 {
        let a = random_scalar();
        let b = random_scalar();
        let p = base_mul(&random_scalar());
        let q = base_mul(&random_scalar());
        let expected = (sc(&a) * point(&p) + sc(&b) * point(&q)).compress().to_bytes();
        let blinded = blinded_vartime_double_scalar_mul(&a, &p, &b, &q).unwrap();
        assert_eq!(blinded, expected);
    }
}

#[test]
fn test_randomize_scalar_is_algebraic_noop() {
    let s = random_scalar();
    let s2 = randomize_scalar_representation(&s);
    assert_eq!(s, s2);
    assert_eq!(base_mul(&s), base_mul(&s2));
}

#[test]
fn test_random_scalar_ct_nonzero() {
    for _ in 0..200 {
        let s = random_scalar_ct();
        assert_ne!(s, [0u8; 32]);
    }
}

#[test]
fn test_blinded_uses_fresh_randomness() {
    let s = random_scalar();
    let r1 = blinded_scalar_mul(&s, &BASE).unwrap();
    let r2 = blinded_scalar_mul(&s, &BASE).unwrap();
    assert_eq!(r1, r2);
    assert!(blinded_scalar_mul(&s, &[0xffu8; 32]).is_none());
}

// ── Range proofs ────────────────────────────────────────────────────────

fn commit_u64(params: &PedersenParams, v: u64, r: &[u8; 32]) -> [u8; 32] {
    params.commit(&scalar_from_u64(v), r)
}

#[test]
fn test_bit_or_proof_zero_isolated() {
    let params = PedersenParams::new();
    let s = random_scalar();
    let b = params.commit(&scalar_from_u64(0), &s);
    let proof = prove_bit_or(&params, &b, 0, &s);
    assert!(verify_bit_or(&params, &b, &proof));
}

#[test]
fn test_bit_or_proof_one_isolated() {
    let params = PedersenParams::new();
    let s = random_scalar();
    let b = params.commit(&scalar_from_u64(1), &s);
    let b_minus_g = point(&b) - point(&params.g);
    let s_h = sc(&s) * point(&params.h);
    assert_eq!(b_minus_g, s_h, "B - params.g != s*params.h — Pedersen commit has unexpected form");
    let proof = prove_bit_or(&params, &b, 1, &s);
    assert!(verify_bit_or(&params, &b, &proof));
}

#[test]
fn test_range_proof_zero() {
    let params = PedersenParams::new();
    let r = random_scalar();
    let c = commit_u64(&params, 0, &r);
    let proof = prove_range_64(&params, 0, &r);
    assert!(verify_range_64(&params, &c, &proof));
}

#[test]
fn test_range_proof_one() {
    let params = PedersenParams::new();
    let r = random_scalar();
    let c = commit_u64(&params, 1, &r);
    let proof = prove_range_64(&params, 1, &r);
    assert!(verify_range_64(&params, &c, &proof));
}

#[test]
fn test_range_proof_max_u64() {
    let params = PedersenParams::new();
    let r = random_scalar();
    let v = u64::MAX;
    let c = commit_u64(&params, v, &r);
    let proof = prove_range_64(&params, v, &r);
    assert!(verify_range_64(&params, &c, &proof));
}

#[test]
fn test_range_proof_wrong_commitment_rejected() {
    let params = PedersenParams::new();
    let r = random_scalar();
    let c_wrong = commit_u64(&params, 99, &r);
    let proof = prove_range_64(&params, 42, &r);
    assert!(!verify_range_64(&params, &c_wrong, &proof));
}

#[test]
fn test_range_proof_tampered_bit_proof_rejected() {
    let params = PedersenParams::new();
    let r = random_scalar();
    let c = commit_u64(&params, 42, &r);
    let mut proof = prove_range_64(&params, 42, &r);
    let mut s_bytes = proof.bit_proofs[3].r0;
    s_bytes[0] ^= 0x01;
    proof.bit_proofs[3].r0 = Scalar::from_bytes_mod_order(s_bytes).to_bytes();
    assert!(!verify_range_64(&params, &c, &proof));
}

#[test]
fn test_range_proof_tampered_bit_commit_rejected() {
    let params = PedersenParams::new();
    let r = random_scalar();
    let c = commit_u64(&params, 42, &r);
    let mut proof = prove_range_64(&params, 42, &r);
    proof.bit_commits[0] = (point(&proof.bit_commits[0]) + point(&params.g)).compress().to_bytes();
    assert!(!verify_range_64(&params, &c, &proof));
}

#[test]
fn test_range_proof_missing_bits_rejected() {
    let params = PedersenParams::new();
    let r = random_scalar();
    let c = commit_u64(&params, 42, &r);
    let mut proof = prove_range_64(&params, 42, &r);
    proof.bit_commits.pop();
    assert!(!verify_range_64(&params, &c, &proof));
}

#[test]
fn range_proof_bit_commitments_open_to_the_bits() {
    let params = PedersenParams::new();
    let r = random_scalar();
    let proof = prove_range_64(&params, 5, &r);
    assert_eq!(proof.bit_commits.len(), 64);
    assert_eq!(proof.bit_proofs.len(), 64);
    // Bit 1 of 5 is zero, so its proof answers slot 0 and verifies.
    assert!(verify_bit_or(&params, &proof.bit_commits[1], &proof.bit_proofs[1]));
}

#[test]
fn sis_commit_ignores_entries_past_m() {
    let params = SisParams { q: 97, n: 2, m: 2, matrix_a: vec![vec![3, 5, 90], vec![7, 11, 80], vec![1, 1, 1]], beta: 4 };
    let c = params.commit(&[2, 1]).unwrap();
    assert_eq!(c, vec![(3 * 2 + 5 * 1) % 97, (7 * 2 + 11 * 1) % 97]);
    assert_eq!(params.verify_opening(&c, &[2, 1]), Ok(true));
}
