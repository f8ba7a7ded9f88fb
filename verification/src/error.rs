use vstd::prelude::*;
use wasefire_error::Error as ApiError;

verus! {

/// Errors returned by functions in this crate.
#[derive(Debug, Copy, Clone, PartialEq, Eq, Structural)]
pub enum Error {
    /// An argument is invalid.
    Invalid,
    /// An argument is not found.
    NotFound,
    /// An argument is not supported.
    Unsupported(Unsupported),
    /// Execution trapped.
    Trap,
}

/// Reason for an unsupported argument.
#[derive(Debug, Copy, Clone, PartialEq, Eq, Structural)]
pub enum Unsupported {
    Exception,
    HeapType,
    MaxLocals,
    Opcode(u8),
    OpcodeFc(u32),
    SideTable,
    TableInit,
    TailCall,
}

/// Error code used when the host reports a trap.
pub const TRAP_CODE: u16 = 0xffff;

pub fn invalid() -> (e: Error)
    ensures
        e == Error::Invalid,
{
    Error::Invalid
}

pub fn not_found() -> (e: Error)
    ensures
        e == Error::NotFound,
{
    Error::NotFound
}

pub fn unsupported(reason: Unsupported) -> (e: Error)
    ensures
        e == Error::Unsupported(reason),
{
    Error::Unsupported(reason)
}

pub fn trap() -> (e: Error)
    ensures
        e == Error::Trap,
{
    Error::Trap
}

/// `Ok` when the condition holds, else `Invalid`.
pub open spec fn spec_check(cond: bool) -> Result<(), Error> {
    if cond {
        Ok(())
    } else {
        Err(Error::Invalid)
    }
}

pub fn check(cond: bool) -> (r: Result<(), Error>)
    ensures
        r == spec_check(cond),
{
    if cond {
        Ok(())
    } else {
        Err(invalid())
    }
}

#[verifier::external_type_specification]
#[verifier::external_body]
pub struct ExApiError(ApiError);

/// The error of the applet API with the given space and code.
pub uninterp spec fn api_error_value(space: u8, code: u16) -> ApiError;

/// Makes an error of the applet API: calls `wasefire_error::Error::new_const`, which packs the
/// space and the code. The contract only names the result.
#[verifier::external_body]
pub(crate) fn new_api_error(space: u8, code: u16) -> (r: ApiError)
    ensures
        r == api_error_value(space, code),
{
    ApiError::new_const(space, code)
}

/// The space of user errors of the applet API.
pub const API_USER: u8 = 1;

/// The space of internal errors of the applet API.
pub const API_INTERNAL: u8 = 2;

/// The code of invalid arguments in the applet API.
pub const API_INVALID_ARGUMENT: u16 = 8;

/// The code of missing items in the applet API.
pub const API_NOT_FOUND: u16 = 2;

/// The code of unimplemented features in the applet API.
pub const API_NOT_IMPLEMENTED: u16 = 1;

/// The space and code of the applet API error for an error.
pub open spec fn spec_api_error_parts(e: Error) -> (u8, u16) {
    match e {
        Error::Invalid => (API_USER, API_INVALID_ARGUMENT),
        Error::NotFound => (API_USER, API_NOT_FOUND),
        Error::Unsupported(_) => (API_INTERNAL, API_NOT_IMPLEMENTED),
        Error::Trap => (API_USER, TRAP_CODE),
    }
}

/// The space and code of the applet API error for an error.
pub fn api_error_parts(e: Error) -> (r: (u8, u16))
    ensures
        r == spec_api_error_parts(e),
{
    match e {
        Error::Invalid => (API_USER, API_INVALID_ARGUMENT),
        Error::NotFound => (API_USER, API_NOT_FOUND),
        Error::Unsupported(_) => (API_INTERNAL, API_NOT_IMPLEMENTED),
        Error::Trap => (API_USER, TRAP_CODE),
    }
}

/// Converts an error to an error of the applet API.
pub fn api_error(e: Error) -> (r: ApiError)
    ensures
        r == api_error_value(spec_api_error_parts(e).0, spec_api_error_parts(e).1),
{
    let (space, code) = api_error_parts(e);
    new_api_error(space, code)
}

} // verus!
