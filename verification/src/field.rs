//! Decoding of decimal strings into scalars of the working field.
//!
//! The working field is the scalar field of the BN254 pairing, the field the
//! proving backend computes in. Scalars are opaque here: this crate never
//! computes with them, it only decodes, carries and hands them on. Decoding
//! is done by the field implementation itself, behind a trusted wrapper, so
//! that a value larger than the field modulus is reduced exactly the way the
//! backend reduces it.

use vstd::prelude::*;
use std::str::FromStr;
use crate::errors::BridgeError;

verus! {

/// A scalar of the working field, the scalar field of the BN254 pairing.
///
/// The struct hides the backend's field element (`ark_bn254::Fr`), whose
/// generic type parameters Verus cannot declare. The `value` field is public
/// so that unverified callers can hand scalars to the proving backend; the
/// verified library never looks inside.
#[verifier::external_body]
pub struct Scalar {
    /// The backend's representation of this scalar.
    pub value: ark_bn254::Fr,
}

impl Clone for Scalar {
    /// Relies on `Copy` for ark_bn254::Fr: a clone is the same scalar.
    #[verifier::external_body]
    fn clone(&self) -> (r: Self)
        ensures
            r == *self,
    {
        Scalar { value: self.value }
    }
}

/// Relies on `PartialEq` for ark_bn254::Fr (derived in ark-ff over the
/// canonical Montgomery representation, which every field operation keeps
/// reduced): two scalars compare equal exactly when they are the same field
/// element.
#[verifier::external_body]
fn scalar_eq(a: &Scalar, b: &Scalar) -> (r: bool)
    ensures
        r == (*a == *b),
{
    a.value == b.value
}

impl PartialEq for Scalar {
    fn eq(&self, other: &Self) -> bool {
        scalar_eq(self, other)
    }
}

impl Copy for Scalar {

}

impl vstd::std_specs::cmp::PartialEqSpecImpl for Scalar {
    open spec fn obeys_eq_spec() -> bool {
        true
    }

    open spec fn eq_spec(&self, other: &Scalar) -> bool {
        *self == *other
    }
}

impl Eq for Scalar {

}

/// An ASCII decimal digit.
pub open spec fn is_ascii_digit(b: u8) -> bool {
    48 <= b <= 57
}

/// A nonempty run of ASCII decimal digits.
pub open spec fn is_decimal_digits(s: Seq<u8>) -> bool {
    s.len() > 0 && forall|i: int| 0 <= i < s.len() ==> is_ascii_digit(#[trigger] s[i])
}

/// A decimal literal the field accepts: a nonempty run of ASCII digits with
/// no unnecessary leading zero.
pub open spec fn is_field_literal(s: Seq<u8>) -> bool {
    is_decimal_digits(s) && (s.len() > 1 ==> s[0] != 48)
}

/// The scalar that a decimal literal decodes to: the value of the digits,
/// reduced into the field. Only the trusted decoding wrapper relates this
/// name to concrete scalars; every caller's contract goes through it.
pub uninterp spec fn scalar_of(digits: Seq<u8>) -> Scalar;

/// The field's multiplicative identity, the scalar that the literal `1`
/// decodes to. It serves as the placeholder value when a circuit is
/// synthesized without a witness.
pub open spec fn scalar_one() -> Scalar {
    scalar_of(seq![49u8])
}

/// Relies on `<ark_bn254::Fr as FromStr>::from_str` (ark-ff): it accepts
/// exactly a nonempty all-digit string with no unnecessary leading zero,
/// and returns the decimal value reduced into the field. The reduction
/// keeps the running result below the modulus, so the trailing modulus
/// check in `from_str` never fails.
#[verifier::external_body]
fn scalar_from_decimal(digits: &[u8]) -> (r: Option<Scalar>)
    ensures
        r is Some <==> is_field_literal(digits@),
        r is Some ==> r->0 == scalar_of(digits@),
{
    match core::str::from_utf8(digits) {
        Ok(s) => ark_bn254::Fr::from_str(s).ok().map(|value| Scalar { value }),
        Err(_) => None,
    }
}

/// Decode a decimal literal into a scalar of the working field.
///
/// Succeeds exactly on a nonempty all-digit string with no unnecessary
/// leading zero; the value is reduced into the field, never rejected for
/// being larger than the modulus.
pub fn parse_field_element(s: &[u8]) -> (r: Result<Scalar, BridgeError>)
    ensures
        is_field_literal(s@) ==> r == Ok::<Scalar, BridgeError>(scalar_of(s@)),
        !is_field_literal(s@) ==> r == Err::<Scalar, BridgeError>(BridgeError::InvalidFieldElement),
{
    match scalar_from_decimal(s) {
        Some(v) => Ok(v),
        None => Err(BridgeError::InvalidFieldElement),
    }
}

/// The multiplicative identity of the working field, obtained by decoding
/// the literal `1`.
pub fn scalar_placeholder() -> (r: Scalar)
    ensures
        r == scalar_one(),
{
    let digits: Vec<u8> = vec![49u8];
    let parsed = scalar_from_decimal(digits.as_slice());
    proof {
        assert(digits@ =~= seq![49u8]);
        assert(is_field_literal(digits@));
    }
    parsed.unwrap()
}

/// Validate the header's field characteristic: a nonempty decimal digit
/// string, kept as written. The characteristic is carried, never computed
/// with, so its digits are its representation.
pub fn parse_characteristic(s: &[u8]) -> (r: Result<Vec<u8>, BridgeError>)
    ensures
        is_decimal_digits(s@) ==> r is Ok && r->Ok_0@ == s@,
        !is_decimal_digits(s@) ==> r == Err::<Vec<u8>, BridgeError>(BridgeError::MalformedHeader),
{
    if s.len() == 0 {
        return Err(BridgeError::MalformedHeader);
    }
    let mut out: Vec<u8> = Vec::new();
    let mut i: usize = 0;
    while i < s.len()
        invariant
            0 <= i <= s@.len(),
            out@ == s@.subrange(0, i as int),
            forall|j: int| 0 <= j < i ==> is_ascii_digit(#[trigger] s@[j]),
        decreases s@.len() - i,
    {
        let b = s[i];
        if b < 48 || b > 57 {
            return Err(BridgeError::MalformedHeader);
        }
        out.push(b);
        proof {
            assert(out@ =~= s@.subrange(0, i + 1 as int));
        }
        i = i + 1;
    }
    proof {
        assert(out@ =~= s@);
    }
    Ok(out)
}

} // verus!
