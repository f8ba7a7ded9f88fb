use wasefire_interpreter::error::{api_error, check, Error, Unsupported, TRAP_CODE};

#[test]
fn check_condition() {
    assert_eq!(check(true), Ok(()));
    assert_eq!(check(false), Err(Error::Invalid));
}

#[test]
fn api_errors() {
    let e = api_error(Error::Invalid);
    assert_eq!((e.space(), e.code()), (1, 8));
    assert_eq!(e, wasefire_error::Error::user(wasefire_error::Code::InvalidArgument));
    let e = api_error(Error::NotFound);
    assert_eq!((e.space(), e.code()), (1, 2));
    let e = api_error(Error::Unsupported(Unsupported::SideTable));
    assert_eq!((e.space(), e.code()), (2, 1));
    assert_eq!(e, wasefire_error::Error::internal(wasefire_error::Code::NotImplemented));
    let e = api_error(Error::Trap);
    assert_eq!((e.space(), e.code()), (1, TRAP_CODE));
}
