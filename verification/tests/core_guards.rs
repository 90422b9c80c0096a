use specter::pct::deterrence::verify_deterrence;
use specter::pct::memory_guard::{disable_core_dumps, LockedBytes};

#[test]
fn test_verify_deterrence_ok() {
    assert!(verify_deterrence(1000, 1001).is_ok());
    assert!(verify_deterrence(1000, 5000).is_ok());
}

#[test]
fn test_verify_deterrence_fails() {
    assert!(verify_deterrence(1000, 1000).is_err());
    assert!(verify_deterrence(1000, 500).is_err());
}

#[test]
fn test_locked_bytes_basic() {
    let mut lb = LockedBytes::new(64);
    assert_eq!(lb.len(), 64);
    assert!(!lb.is_empty());
    lb.as_mut_slice()[0] = 0xAA;
    assert_eq!(lb.as_slice()[0], 0xAA);
}

#[test]
fn test_locked_bytes_from_vec() {
    let source = vec![1u8, 2, 3, 4, 5];
    let lb = LockedBytes::from_vec(source);
    assert_eq!(lb.as_slice(), &[1, 2, 3, 4, 5]);
}

#[test]
fn test_locked_bytes_drop_zeroizes() {
    let lb = LockedBytes::new(32);
    drop(lb);
}

#[test]
fn test_locked_bytes_empty() {
    let lb = LockedBytes::new(0);
    assert!(lb.is_empty());
}

#[test]
fn test_disable_core_dumps_no_panic() {
    let _ = disable_core_dumps();
}

#[test]
fn deterrence_at_the_largest_value_reports_a_saturated_minimum() {
    assert_eq!(
        verify_deterrence(u64::MAX, u64::MAX),
        Err(specter::pct::deterrence::DeterrenceError::InsufficientBond {
            token_value: u64::MAX,
            bond_amount: u64::MAX,
            minimum_bond: u64::MAX,
        })
    );
}
