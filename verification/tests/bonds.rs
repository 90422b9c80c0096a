use specter::offline::bonds::BondError;
use specter::offline::bonds::BondRegistry;

fn owner(id: u8) -> [u8; 32] {
    let mut o = [0u8; 32];
    o[0] = id;
    o
}

#[test]
fn test_no_bond_no_coverage() {
    let reg = BondRegistry::new();
    assert!(!reg.check_coverage(&owner(99), 1));
}

#[test]
fn test_deposit_and_check_coverage() {
    let mut reg = BondRegistry::new();
    reg.deposit(owner(1), 1000).unwrap();
    assert!(reg.check_coverage(&owner(1), 500));
    assert!(reg.check_coverage(&owner(1), 1000));
    assert!(!reg.check_coverage(&owner(1), 1001));
}

#[test]
fn test_register_and_settle() {
    let mut reg = BondRegistry::new();
    reg.deposit(owner(1), 1000).unwrap();
    reg.register_offline_spend(&owner(1), 500).unwrap();
    assert!(reg.check_coverage(&owner(1), 500));
    assert!(!reg.check_coverage(&owner(1), 501));
    reg.settle(&owner(1), 300).unwrap();
    assert!(reg.check_coverage(&owner(1), 800));
}

#[test]
fn test_insufficient_bond() {
    let mut reg = BondRegistry::new();
    reg.deposit(owner(1), 100).unwrap();
    assert!(reg.register_offline_spend(&owner(1), 200).is_err());
}

#[test]
fn test_slash() {
    let mut reg = BondRegistry::new();
    reg.deposit(owner(1), 1000).unwrap();
    let evidence_a = [1u8; 32];
    let evidence_b = [2u8; 32];
    let slashed = reg.slash(&owner(1), &evidence_a, &evidence_b).unwrap();
    assert_eq!(slashed, 1000);
    assert!(!reg.check_coverage(&owner(1), 1));
    assert!(reg.slash(&owner(1), &evidence_a, &evidence_b).is_err());
}

#[test]
fn test_slash_requires_distinct_evidence() {
    let mut reg = BondRegistry::new();
    reg.deposit(owner(1), 1000).unwrap();
    let same = [1u8; 32];
    assert!(reg.slash(&owner(1), &same, &same).is_err());
}

#[test]
fn test_withdraw_with_lock_period() {
    let mut reg = BondRegistry::new();
    reg.lock_period_secs = 100;
    reg.deposit(owner(1), 1000).unwrap();
    assert!(reg.withdraw(&owner(1), 0).is_err());
    let withdrawable_at = reg.request_withdrawal(&owner(1), 1000).unwrap();
    assert_eq!(withdrawable_at, 1100);
    assert!(reg.withdraw(&owner(1), 1050).is_err());
    let amount = reg.withdraw(&owner(1), 1100).unwrap();
    assert_eq!(amount, 1000);
}

#[test]
fn test_withdraw_with_exposure_fails() {
    let mut reg = BondRegistry::new();
    reg.deposit(owner(1), 1000).unwrap();
    reg.register_offline_spend(&owner(1), 500).unwrap();
    assert!(reg.request_withdrawal(&owner(1), 0).is_err());
}

#[test]
fn test_slash_during_lock_period() {
    let mut reg = BondRegistry::new();
    reg.lock_period_secs = 100;
    reg.deposit(owner(1), 1000).unwrap();
    reg.request_withdrawal(&owner(1), 1000).unwrap();
    let slashed = reg.slash(&owner(1), &[1u8; 32], &[2u8; 32]).unwrap();
    assert_eq!(slashed, 1000);
    assert!(reg.withdraw(&owner(1), 2000).is_err());
}

#[test]
fn test_multiple_owners() {
    let mut reg = BondRegistry::new();
    reg.deposit(owner(1), 1000).unwrap();
    reg.deposit(owner(2), 500).unwrap();
    assert!(reg.check_coverage(&owner(1), 900));
    assert!(reg.check_coverage(&owner(2), 400));
    assert!(!reg.check_coverage(&owner(2), 600));
    assert_eq!(reg.active_count(), 2);
}

#[test]
fn bonds_test_full_lifecycle() {
    let mut reg = BondRegistry::new();
    reg.lock_period_secs = 100;
    reg.deposit(owner(1), 1000).unwrap();
    reg.register_offline_spend(&owner(1), 300).unwrap();
    reg.register_offline_spend(&owner(1), 200).unwrap();
    reg.settle(&owner(1), 300).unwrap();
    reg.settle(&owner(1), 200).unwrap();
    reg.request_withdrawal(&owner(1), 1000).unwrap();
    let amount = reg.withdraw(&owner(1), 1100).unwrap();
    assert_eq!(amount, 1000);
}

#[test]
fn bond_error_values() {
    let mut reg = BondRegistry::new();
    reg.deposit(owner(1), 100).unwrap();
    assert!(matches!(reg.deposit(owner(1), 5), Err(BondError::AlreadyHasBond)));
    assert!(matches!(reg.slash(&owner(1), &[1u8; 32], &[1u8; 32]), Err(BondError::InsufficientEvidence)));
    let b = reg.get_bond(&owner(1)).unwrap();
    assert_eq!(b.amount, 100);
    assert!(reg.get_bond(&owner(2)).is_none());
}

// ── Delay proofs ────────────────────────────────────────────────────────

use specter::offline::vdf::{create_seed, evaluate, is_expired, verify, VdfParams};

#[test]
fn test_evaluate_and_verify() {
    let seed = [42u8; 32];
    let proof = evaluate(&seed, 100);
    assert!(verify(&proof));
}

#[test]
fn test_deterministic() {
    let seed = [1u8; 32];
    let p1 = evaluate(&seed, 50);
    let p2 = evaluate(&seed, 50);
    assert_eq!(p1.output, p2.output);
}

#[test]
fn test_different_seeds() {
    let p1 = evaluate(&[1u8; 32], 50);
    let p2 = evaluate(&[2u8; 32], 50);
    assert_ne!(p1.output, p2.output);
}

#[test]
fn test_different_iterations() {
    let seed = [1u8; 32];
    let p1 = evaluate(&seed, 50);
    let p2 = evaluate(&seed, 100);
    assert_ne!(p1.output, p2.output);
}

#[test]
fn test_tampered_output_fails() {
    let seed = [1u8; 32];
    let mut proof = evaluate(&seed, 50);
    proof.output[0] ^= 0xFF;
    assert!(!verify(&proof));
}

#[test]
fn test_is_expired() {
    let proof = evaluate(&[1u8; 32], 50);
    assert!(!is_expired(&proof, 50));
    assert!(!is_expired(&proof, 30));
    assert!(is_expired(&proof, 100));
}

#[test]
fn test_create_seed() {
    let token_id = [99u8; 32];
    let s1 = create_seed(&token_id, 1000);
    let s2 = create_seed(&token_id, 2000);
    assert_ne!(s1, s2);
}

#[test]
fn test_zero_iterations() {
    let seed = [1u8; 32];
    let proof = evaluate(&seed, 0);
    assert_eq!(proof.output, seed);
    assert!(verify(&proof));
}

#[test]
fn vdf_params_and_one_step() {
    assert_eq!(VdfParams::new(77).iterations, 77);
    let p = evaluate(&[3u8; 32], 1);
    assert_ne!(p.output, [3u8; 32]);
    assert_eq!(p.iterations, 1);
    assert_eq!(p.seed, [3u8; 32]);
}

#[test]
fn withdrawal_requested_at_time_zero_counts() {
    let mut reg = BondRegistry::new();
    reg.set_lock_period(100);
    reg.deposit(owner(1), 1000).unwrap();
    assert_eq!(reg.request_withdrawal(&owner(1), 0), Ok(100));
    assert_eq!(reg.withdraw(&owner(1), 99), Err(BondError::LockPeriodNotElapsed));
    assert_eq!(reg.withdraw(&owner(1), 100), Ok(1000));
    assert!(reg.get_bond(&owner(1)).is_none());
    assert_eq!(reg.active_count(), 0);
}
