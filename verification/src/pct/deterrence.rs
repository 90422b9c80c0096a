//! Economic deterrence of offline double spends: a bond larger than the
//! token value makes double spending unprofitable.

use vstd::prelude::*;

verus! {

/// Errors of deterrence checks.
#[derive(Debug, PartialEq, Eq, Clone, Copy)]
pub enum DeterrenceError {
    InsufficientBond { token_value: u64, bond_amount: u64, minimum_bond: u64 },
}

/// Accept the parameters if the bond exceeds the token value; otherwise
/// report the minimum bond (one more than the value, held at `u64::MAX`
/// for the largest value, which no bond can exceed).
pub fn verify_deterrence(token_value: u64, bond_amount: u64) -> (r: Result<(), DeterrenceError>)
    ensures
        bond_amount > token_value <==> r.is_ok(),
        bond_amount <= token_value ==> r == Err::<(), DeterrenceError>(DeterrenceError::InsufficientBond {
            token_value,
            bond_amount,
            minimum_bond: if token_value == u64::MAX { u64::MAX } else { (token_value + 1) as u64 },
        }),
{
    if bond_amount <= token_value {
        return Err(DeterrenceError::InsufficientBond { token_value, bond_amount, minimum_bond: token_value.saturating_add(1) });
    }
    Ok(())
}

/// When the bond exceeds the value, the attacker's best case —
/// gaining the value and forfeiting the bond and any reputation cost —
/// is a strict loss.
pub proof fn law_bond_above_value_deters(value: u64, bond: u64, reputation_cost: u64)
    requires
        bond > value,
    ensures
        value - bond - reputation_cost < 0,
{
}

} // verus!
