//! The verdict of verifying a token: each check and their conjunction.

use vstd::prelude::*;

verus! {

/// The outcome of each check on a token.
#[derive(Debug, Clone, Copy)]
pub struct VerificationResult {
    /// The mint's blind signature verifies.
    pub signature_valid: bool,
    /// The value commitment opens to the claimed value.
    pub value_valid: bool,
    /// The transfer count is within the bound.
    pub within_bound: bool,
    /// The transfer history verifies.
    pub fold_valid: bool,
    /// The credential presentation verifies (`None`: no credential).
    pub credential_valid: Option<bool>,
    /// The delay proof verifies (`None`: no delay proof).
    pub vdf_valid: Option<bool>,
}

impl VerificationResult {
    /// Whether every check passed; an absent credential or delay proof
    /// counts as passed.
    pub open spec fn spec_all_valid(&self) -> bool {
        &&& self.signature_valid
        &&& self.value_valid
        &&& self.within_bound
        &&& self.fold_valid
        &&& (self.credential_valid matches Some(b) ==> b)
        &&& (self.vdf_valid matches Some(b) ==> b)
    }

    /// Whether every check passed.
    pub fn all_valid(&self) -> (b: bool)
        ensures
            b == self.spec_all_valid(),
    {
        self.signature_valid && self.value_valid && self.within_bound && self.fold_valid
            && match self.credential_valid { Some(c) => c, None => true }
            && match self.vdf_valid { Some(v) => v, None => true }
    }
}

/// The message the mint signs for a token: its id followed by the
/// encoding of its value commitment.
pub fn build_signed_message(token_id: &[u8; 32], value_commitment: &[u8; 32]) -> (m: Vec<u8>)
    ensures
        m@ == token_id@ + value_commitment@,
{
    let mut msg: Vec<u8> = Vec::new();
    crate::bytes::append_bytes(&mut msg, token_id);
    crate::bytes::append_bytes(&mut msg, value_commitment);
    msg
}


/// The verdict is the conjunction of the checks, an absent credential or
/// delay proof counting as passed: any present check that failed makes it
/// false, and it is true when every present check passed.
pub proof fn law_verdict_is_conjunction(v: VerificationResult)
    ensures
        v.spec_all_valid() == (v.signature_valid && v.value_valid && v.within_bound && v.fold_valid
            && v.credential_valid != Some(false) && v.vdf_valid != Some(false)),
        !v.signature_valid ==> !v.spec_all_valid(),
        !v.value_valid ==> !v.spec_all_valid(),
        !v.within_bound ==> !v.spec_all_valid(),
        !v.fold_valid ==> !v.spec_all_valid(),
        v.credential_valid == Some(false) ==> !v.spec_all_valid(),
        v.vdf_valid == Some(false) ==> !v.spec_all_valid(),
{
}

} // verus!
