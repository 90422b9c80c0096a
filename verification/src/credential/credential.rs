//! Credential attributes and issued credentials.

use vstd::prelude::*;
use vstd::string::*;
use crate::scalar::{enc, scalar_array, lemma_scalar_array};

verus! {

broadcast use crate::scalar::lemma_enc, vstd::utf8::encode_utf8_decode_utf8;

/// The compliance attributes a credential certifies.
#[derive(Clone, Debug)]
pub struct Attributes {
    pub kyc_passed: bool,
    pub not_sanctioned: bool,
    pub jurisdiction: String,
    pub age_over_18: bool,
    pub expires_at: u64,
}

/// The numeric code of a jurisdiction name.
pub open spec fn spec_jurisdiction_code(j: Seq<char>) -> u64 {
    if j == "EU"@ { 1 }
    else if j == "US"@ { 2 }
    else if j == "BR"@ { 3 }
    else if j == "UK"@ { 4 }
    else if j == "CH"@ { 5 }
    else if j == "JP"@ { 6 }
    else { 99 }
}


/// Whether a string equals a literal.
fn str_is(s: &str, lit: &str) -> (b: bool)
    ensures
        b == (s@ == lit@),
{
    let r = crate::bytes::bytes_eq(s.as_bytes(), lit.as_bytes());
    proof {
        if s.spec_bytes() == lit.spec_bytes() {
            assert(vstd::utf8::decode_utf8(vstd::utf8::encode_utf8(s@)) == s@);
            assert(vstd::utf8::decode_utf8(vstd::utf8::encode_utf8(lit@)) == lit@);
        }
    }
    r
}

impl Attributes {
    /// The attributes as scalars: kyc, sanctions, jurisdiction code, age.
    pub open spec fn scalars_spec(&self) -> Seq<[u8; 32]> {
        seq![
            scalar_array(if self.kyc_passed { 1 } else { 0 }),
            scalar_array(if self.not_sanctioned { 1 } else { 0 }),
            scalar_array(spec_jurisdiction_code(self.jurisdiction@) as int),
            scalar_array(if self.age_over_18 { 1 } else { 0 }),
        ]
    }

    /// The attributes as field elements: kyc, sanctions, jurisdiction
    /// code, age (booleans as 0 or 1).
    pub fn to_scalars(&self) -> (v: Vec<[u8; 32]>)
        ensures
            v@.len() == 4,
            v@[0]@ == enc(if self.kyc_passed { 1 } else { 0 }),
            v@[1]@ == enc(if self.not_sanctioned { 1 } else { 0 }),
            v@[2]@ == enc(spec_jurisdiction_code(self.jurisdiction@) as int),
            v@[3]@ == enc(if self.age_over_18 { 1 } else { 0 }),
            forall|i: int| 0 <= i < 4 ==> crate::scalar::is_scalar(#[trigger] v@[i]),
            v@ == self.scalars_spec(),
    {
        let mut v: Vec<[u8; 32]> = Vec::new();
        v.push(crate::group::scalar_from_u64(if self.kyc_passed { 1 } else { 0 }));
        v.push(crate::group::scalar_from_u64(if self.not_sanctioned { 1 } else { 0 }));
        v.push(crate::group::scalar_from_u64(self.jurisdiction_code()));
        v.push(crate::group::scalar_from_u64(if self.age_over_18 { 1 } else { 0 }));
        proof {
            lemma_scalar_array(v@[0], if self.kyc_passed { 1 } else { 0 });
            lemma_scalar_array(v@[1], if self.not_sanctioned { 1 } else { 0 });
            lemma_scalar_array(v@[2], spec_jurisdiction_code(self.jurisdiction@) as int);
            lemma_scalar_array(v@[3], if self.age_over_18 { 1 } else { 0 });
            assert(v@ =~= self.scalars_spec());
        }
        v
    }

    /// The numeric code of the jurisdiction (99 for unlisted ones).
    pub fn jurisdiction_code(&self) -> (c: u64)
        ensures
            c == spec_jurisdiction_code(self.jurisdiction@),
    {
        let j = self.jurisdiction.as_str();
        if str_is(j, "EU") {
            1
        } else if str_is(j, "US") {
            2
        } else if str_is(j, "BR") {
            3
        } else if str_is(j, "UK") {
            4
        } else if str_is(j, "CH") {
            5
        } else if str_is(j, "JP") {
            6
        } else {
            99
        }
    }

    /// Number of attributes.
    pub fn count() -> (n: usize)
        ensures
            n == 4,
    {
        4
    }
}

/// A credential: a Pedersen vector commitment to the attributes with its
/// blinding factor, and the issuer's Schnorr signature on the commitment.
#[derive(Clone, Debug)]
pub struct Credential {
    pub commitment: [u8; 32],
    pub blinding: [u8; 32],
    pub attributes: Attributes,
    pub signature_s: [u8; 32],
    pub signature_e: [u8; 32],
    pub issuer_pk: [u8; 32],
}

} // verus!
