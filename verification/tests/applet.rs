use wasefire_error::{Code, Error as ApiError};
use wasefire_interpreter::applet::{
    convert, convert_bool, convert_never, convert_unit, encode_keys, Transfer,
};

#[test]
fn convert_results() {
    assert_eq!(convert(0), Ok(0));
    assert_eq!(convert(42), Ok(42));
    assert_eq!(convert(i32::MAX as isize), Ok(i32::MAX as usize));
    let invalid = ApiError::user(Code::InvalidArgument);
    assert_eq!(convert(ApiError::encode(Err(invalid)) as isize), Err(invalid));
    assert_eq!(convert(-1), Err(ApiError::new_const(0, 0)));
    assert_eq!(convert(-0x100_0000), Err(ApiError::new_const(0xff, 0xffff)));
}

#[test]
fn convert_special_results() {
    let error = ApiError::world(Code::NotEnough);
    let encoded = ApiError::encode(Err(error)) as isize;
    assert_eq!(convert_bool(0), Ok(false));
    assert_eq!(convert_bool(1), Ok(true));
    assert_eq!(convert_bool(encoded), Err(error));
    assert_eq!(convert_unit(0), Ok(()));
    assert_eq!(convert_unit(encoded), Err(error));
    assert_eq!(convert_never(encoded), error);
}

#[test]
fn encode_key_ranges() {
    assert_eq!(encode_keys(3 .. 10), Ok(0x000a_0003));
    assert_eq!(encode_keys(0 .. 0xffff), Ok(0xffff_0000));
    assert_eq!(encode_keys(0 .. 0x10000), Err(ApiError::user(0)));
    assert_eq!(encode_keys(0x10000 .. 0x10001), Err(ApiError::user(0)));
}

#[test]
fn transfer_progress() {
    let mut t = Transfer::new(4);
    assert!(t.listening && t.is_empty() && !t.is_done());
    assert_eq!(t.update(false, Ok(2)), Ok(0));
    assert_eq!(t.update(true, Ok(0)), Ok(0));
    assert!(t.is_empty());
    assert_eq!(t.update(true, Ok(3)), Ok(3));
    assert_eq!(t.position(), 3);
    assert!(!t.is_empty() && !t.is_done());
    assert_eq!(t.update(true, Ok(1)), Ok(4));
    assert!(t.is_done());
    assert_eq!(t.update(true, Ok(5)), Ok(4));
}

#[test]
fn transfer_error() {
    let error = ApiError::world(Code::Generic);
    let mut t = Transfer::new(4);
    assert_eq!(t.update(true, Ok(1)), Ok(1));
    assert_eq!(t.update(true, Err(error)), Err(error));
    assert!(t.is_done() && !t.is_empty());
}

#[test]
fn empty_transfer() {
    let t = Transfer::new(0);
    assert!(t.is_done() && t.is_empty());
}
