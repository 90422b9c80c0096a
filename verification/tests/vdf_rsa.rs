use num_bigint::BigUint;
use specter::offline::vdf;
use specter::offline::vdf_rsa::{evaluate, is_probably_prime_miller_rabin, verify, RsaVdfParams};
use specter::offline::vdf_unified::{evaluate_unified, is_expired_unified, verify_unified, UnifiedVdfProof, VdfRsaError};

fn small_params() -> RsaVdfParams {
    RsaVdfParams::small_test()
}

fn big(v: u64) -> Vec<u8> {
    BigUint::from(v).to_bytes_be()
}

fn add_one(bytes: &[u8]) -> Vec<u8> {
    (BigUint::from_bytes_be(bytes) + BigUint::from(1u64)).to_bytes_be()
}

#[test]
fn test_rsa_vdf_evaluate_and_verify() {
    let params = small_params();
    let proof = evaluate(&params, &big(42), 100);
    assert!(verify(&params, &proof));
}

#[test]
fn test_rsa_vdf_deterministic() {
    let params = small_params();
    let p1 = evaluate(&params, &big(42), 50);
    let p2 = evaluate(&params, &big(42), 50);
    assert_eq!(p1.output, p2.output);
}

#[test]
fn test_rsa_vdf_different_inputs() {
    let params = small_params();
    let p1 = evaluate(&params, &big(10), 50);
    let p2 = evaluate(&params, &big(20), 50);
    assert_ne!(p1.output, p2.output);
}

#[test]
fn test_rsa_vdf_tampered_output_fails() {
    let params = small_params();
    let mut proof = evaluate(&params, &big(42), 50);
    proof.output = add_one(&proof.output);
    assert!(!verify(&params, &proof));
}

#[test]
fn test_rsa_vdf_tampered_proof_fails() {
    let params = small_params();
    let mut proof = evaluate(&params, &big(42), 50);
    proof.proof_pi = add_one(&proof.proof_pi);
    assert!(!verify(&params, &proof));
}

#[test]
fn test_rsa_vdf_sequential_nature() {
    let params = small_params();
    let input = BigUint::from(7u64);
    let n = BigUint::from_bytes_be(&params.modulus);
    let x2 = (&input * &input) % &n;
    let x4 = (&x2 * &x2) % &n;
    let x8 = (&x4 * &x4) % &n;
    let proof = evaluate(&params, &input.to_bytes_be(), 3);
    assert_eq!(BigUint::from_bytes_be(&proof.output), x8);
}

#[test]
fn test_wesolowski_verification_fast() {
    let params = small_params();
    let proof = evaluate(&params, &big(42), 1000);
    assert!(verify(&params, &proof));
}

#[test]
fn test_primality_miller_rabin() {
    assert!(is_probably_prime_miller_rabin(&big(2), 20));
    assert!(is_probably_prime_miller_rabin(&big(3), 20));
    assert!(is_probably_prime_miller_rabin(&big(17), 20));
    assert!(is_probably_prime_miller_rabin(&big(97), 20));
    assert!(!is_probably_prime_miller_rabin(&big(4), 20));
    assert!(!is_probably_prime_miller_rabin(&big(100), 20));
    // Carmichael numbers are rejected
    assert!(!is_probably_prime_miller_rabin(&big(561), 20));
    assert!(!is_probably_prime_miller_rabin(&big(1105), 20));
    assert!(!is_probably_prime_miller_rabin(&big(1729), 20));
}

#[test]
fn rsa_params_moduli() {
    let small = small_params();
    assert_eq!(BigUint::from_bytes_be(&small.modulus), BigUint::from(104729u64 * 104723u64));
    assert_eq!(small.bits, 34);
    let full = RsaVdfParams::default_2048();
    assert_eq!(full.bits, 2048);
    assert_eq!(full.modulus.len(), 256);
    let decimal = "25195908475657893494027183240048398571429282126204032027777137836043662020707595556264018525880784406918290641249515082189298559149176184502808489120072844992687392807287767735971418347270261896375014971824691165077613379859095700097330459748808428401797429100642458691817195118746121515172654632282216869987549182422433637259085141865462043576798423387184774479207399342365848238242811981638150106748104516603773060562016196762561338441436038339044149526344321901146575444541784240209246165157233507787077498171257724679629263863563732899121548314381678998850404453640235273819513786365643912120103971228221207203578";
    assert_eq!(BigUint::from_bytes_be(&full.modulus).to_str_radix(10), decimal);
}

#[test]
fn rsa_challenge_is_prime_and_recorded() {
    let params = small_params();
    let proof = evaluate(&params, &big(5), 10);
    assert!(is_probably_prime_miller_rabin(&proof.challenge_l, 20));
    assert_eq!(BigUint::from_bytes_be(&proof.input), BigUint::from(5u64));
    assert_eq!(proof.iterations, 10);
    let mut wrong = proof.clone();
    wrong.challenge_l = add_one(&wrong.challenge_l);
    assert!(!verify(&params, &wrong));
}

#[test]
fn rsa_zero_iterations_keep_input() {
    let params = small_params();
    let proof = evaluate(&params, &big(42), 0);
    assert_eq!(BigUint::from_bytes_be(&proof.output), BigUint::from(42u64));
    assert!(verify(&params, &proof));
}

#[test]
fn test_unified_rsa_evaluate_and_verify() {
    let params = RsaVdfParams::small_test();
    let proof = evaluate_unified(&params, &big(42), 100).unwrap();
    assert!(verify_unified(&proof, &params));
}

#[test]
fn test_unified_hash_chain_verify() {
    let seed = [7u8; 32];
    let hash_proof = vdf::evaluate(&seed, 50);
    let unified = UnifiedVdfProof::HashChain(hash_proof);
    let dummy_params = RsaVdfParams::small_test();
    assert!(verify_unified(&unified, &dummy_params));
}

#[test]
fn test_is_expired_unified_rsa() {
    let params = RsaVdfParams::small_test();
    let proof = evaluate_unified(&params, &big(42), 50).unwrap();
    assert!(!is_expired_unified(&proof, 50));
    assert!(!is_expired_unified(&proof, 30));
    assert!(is_expired_unified(&proof, 100));
}

#[test]
fn test_is_expired_unified_hash_chain() {
    let seed = [1u8; 32];
    let hash_proof = vdf::evaluate(&seed, 50);
    let unified = UnifiedVdfProof::HashChain(hash_proof);
    assert!(!is_expired_unified(&unified, 50));
    assert!(is_expired_unified(&unified, 100));
}

#[test]
fn unified_rejects_zero_modulus() {
    let params = RsaVdfParams { modulus: vec![0u8], bits: 0 };
    let r = evaluate_unified(&params, &big(42), 10);
    assert!(matches!(r, Err(VdfRsaError::ZeroModulus)));
}
