//! Decoding of decimal field-element literals and the characteristic.

use arkworks_bridge::errors::BridgeError;
use arkworks_bridge::field::{parse_characteristic, parse_field_element, scalar_placeholder};

#[test]
fn accepts_zero_literal() {
    assert!(parse_field_element(b"0").is_ok());
}

#[test]
fn accepts_plain_decimal() {
    assert!(parse_field_element(b"123456789").is_ok());
}

#[test]
fn rejects_empty_literal() {
    assert!(parse_field_element(b"") == Err(BridgeError::InvalidFieldElement));
}

#[test]
fn rejects_leading_zero() {
    assert!(parse_field_element(b"0123") == Err(BridgeError::InvalidFieldElement));
    assert!(parse_field_element(b"00") == Err(BridgeError::InvalidFieldElement));
}

#[test]
fn rejects_non_digits() {
    assert!(parse_field_element(b"12a3") == Err(BridgeError::InvalidFieldElement));
    assert!(parse_field_element(b"-5") == Err(BridgeError::InvalidFieldElement));
    assert!(parse_field_element(b"1.5") == Err(BridgeError::InvalidFieldElement));
}

#[test]
fn same_literal_decodes_to_same_scalar() {
    let a = parse_field_element(b"42").unwrap();
    let b = parse_field_element(b"42").unwrap();
    let c = parse_field_element(b"43").unwrap();
    assert!(a == b);
    assert!(a != c);
}

#[test]
fn values_above_the_modulus_are_reduced() {
    // The BN254 scalar-field modulus itself reduces to zero.
    let modulus =
        b"21888242871839275222246405745257275088548364400416034343698204186575808495617";
    let reduced = parse_field_element(modulus).unwrap();
    let zero = parse_field_element(b"0").unwrap();
    assert!(reduced == zero);
    // One above the modulus reduces to one.
    let above = parse_field_element(
        b"21888242871839275222246405745257275088548364400416034343698204186575808495618",
    )
    .unwrap();
    let one = parse_field_element(b"1").unwrap();
    assert!(above == one);
}

#[test]
fn placeholder_is_the_literal_one() {
    let one = parse_field_element(b"1").unwrap();
    assert!(scalar_placeholder() == one);
}

#[test]
fn characteristic_keeps_digits() {
    let digits = parse_characteristic(b"04217").unwrap();
    assert_eq!(digits, b"04217".to_vec());
}

#[test]
fn characteristic_rejects_non_digits() {
    assert_eq!(
        parse_characteristic(b""),
        Err(BridgeError::MalformedHeader)
    );
    assert_eq!(
        parse_characteristic(b"12x"),
        Err(BridgeError::MalformedHeader)
    );
}
