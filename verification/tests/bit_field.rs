use wasefire_interpreter::bit_field::{from_field, from_signed_field, into_field, into_signed_field};
use wasefire_interpreter::error::Error;

#[test]
fn signed_field_round_trip() {
    let mask = 0b1111000;
    for expected in -8i32 .. 8 {
        let actual = from_signed_field(mask, into_signed_field(mask, expected).unwrap());
        assert_eq!(actual, expected);
    }
}

#[test]
fn signed_field_error_positive() {
    for expected in 8 .. 100 {
        assert!(matches!(into_signed_field(0b1111000, expected), Err(Error::Unsupported(_))));
    }
}

#[test]
fn signed_field_error_negative() {
    for expected in -100 .. -8 {
        assert!(matches!(into_signed_field(0b1111000, expected), Err(Error::Unsupported(_))));
    }
}

#[test]
fn unsigned_field_round_trip() {
    let mask = 0b111000;
    for expected in 0 .. 8 {
        let actual = from_field(mask, into_field(mask, expected).unwrap());
        assert_eq!(actual, expected);
    }
}

#[test]
fn unsigned_field_error() {
    for expected in 8 .. 10 {
        assert!(matches!(into_field(0b111000, expected), Err(Error::Unsupported(_))));
    }
}

#[test]
fn field_exact_values() {
    assert_eq!(into_field(0b111000, 5), Ok(0b101000));
    assert_eq!(from_field(0b111000, 0b1101111), 0b101);
    assert_eq!(into_signed_field(0b1111000, -8), Ok(0));
    assert_eq!(into_signed_field(0b1111000, 7), Ok(0b1111000));
    assert_eq!(from_signed_field(0b1111000, 0), -8);
}
