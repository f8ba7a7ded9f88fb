//! Applet side of the platform API: results of platform calls, keys of fragmented store entries,
//! and the progress of serial transfers.
use vstd::prelude::*;
use wasefire_error::Error as ApiError;

use crate::error::{api_error_value, new_api_error};

verus! {

/// The error space of user errors.
pub const USER_SPACE: u8 = 1;

/// Decodes the result of a platform call: calls `wasefire_error::Error::decode`. Non-negative
/// values are successes with that value; negative values are errors made of the bitwise
/// complement of the value, whose bits above 24 must be zero (the function panics otherwise):
/// the error of the space in bits 16 to 23 and the code in bits 0 to 15.
#[verifier::external_body]
fn decode(result: i32) -> (r: Result<u32, ApiError>)
    requires
        result >= -0x100_0000,
    ensures
        match r {
            Ok(x) => result >= 0 && x == result,
            Err(e) => result < 0 && e == api_error_value(
                spec_error_space(result),
                spec_error_code(result),
            ),
        },
{
    ApiError::decode(result)
}

/// The space of the error that a negative result encodes.
pub open spec fn spec_error_space(result: i32) -> u8 {
    ((-result - 1) / 0x10000) as u8
}

/// The code of the error that a negative result encodes.
pub open spec fn spec_error_code(result: i32) -> u16 {
    ((-result - 1) % 0x10000) as u16
}

/// The result of a platform call that a signed integer encodes (as a 32-bit integer).
pub open spec fn spec_convert(res: isize) -> Result<usize, ApiError> {
    let x = res as i32;
    if x >= 0 {
        Ok(x as usize)
    } else {
        Err(api_error_value(spec_error_space(x), spec_error_code(x)))
    }
}

/// Whether the result of a platform call can be decoded.
pub open spec fn decodable(res: isize) -> bool {
    res as i32 >= -0x100_0000
}

/// Converts the result of a platform call.
pub fn convert(res: isize) -> (r: Result<usize, ApiError>)
    requires
        decodable(res),
    ensures
        r == spec_convert(res),
{
    match decode(res as i32) {
        Ok(x) => Ok(x as usize),
        Err(e) => Err(e),
    }
}

/// Converts the result of a platform call that returns a boolean (0 or 1).
pub fn convert_bool(res: isize) -> (r: Result<bool, ApiError>)
    requires
        decodable(res),
        res as i32 <= 1,
    ensures
        match spec_convert(res) {
            Ok(x) => r == Ok::<bool, ApiError>(x == 1),
            Err(e) => r == Err::<bool, ApiError>(e),
        },
{
    match convert(res) {
        Ok(x) => Ok(x == 1),
        Err(e) => Err(e),
    }
}

/// Converts the result of a platform call that returns nothing (0).
pub fn convert_unit(res: isize) -> (r: Result<(), ApiError>)
    requires
        decodable(res),
        res as i32 <= 0,
    ensures
        match spec_convert(res) {
            Ok(_) => r == Ok::<(), ApiError>(()),
            Err(e) => r == Err::<(), ApiError>(e),
        },
{
    match convert(res) {
        Ok(_) => Ok(()),
        Err(e) => Err(e),
    }
}

/// Converts the result of a platform call that does not return: its error.
pub fn convert_never(res: isize) -> (r: ApiError)
    requires
        decodable(res),
        (res as i32) < 0,
    ensures
        spec_convert(res) == Err::<usize, ApiError>(r),
{
    match convert(res) {
        Ok(_) => {
            assert(false);
            new_api_error(USER_SPACE, 0)
        },
        Err(e) => e,
    }
}

/// Encodes the range of keys of a fragmented entry: the end in the high 16 bits and the start in
/// the low 16 bits, or a user error with code 0 if one of them does not fit in 16 bits.
pub fn encode_keys(keys: core::ops::Range<usize>) -> (r: Result<u32, ApiError>)
    ensures
        match r {
            Ok(x) => keys.start <= 0xffff && keys.end <= 0xffff && x == keys.end * 0x10000
                + keys.start,
            Err(e) => (keys.start > 0xffff || keys.end > 0xffff) && e == api_error_value(
                USER_SPACE,
                0,
            ),
        },
{
    if keys.start > 0xffff || keys.end > 0xffff {
        return Err(new_api_error(USER_SPACE, 0));
    }
    let start = keys.start as u32;
    let end = keys.end as u32;
    assert((end << 16u32) | start == end * 0x10000 + start) by (bit_vector)
        requires
            start <= 0xffff,
            end <= 0xffff,
    ;
    Ok((end << 16u32) | start)
}

// ---------------------------------------------------------------------------------------------
// Serial transfers.

/// The progress of reading a buffer from a serial or writing a buffer to it: how much was
/// transferred (or the error that stopped it), and whether the transfer still listens for
/// the serial to be ready.
pub struct Transfer {
    /// Whether the transfer listens for the serial to be ready.
    pub listening: bool,
    /// How many bytes were transferred, or the error that stopped the transfer.
    pub result: Result<usize, ApiError>,
    /// The length of the buffer.
    pub len: usize,
}

impl Transfer {
    /// Whether the transfer must go on: nothing failed and the buffer is not done.
    pub open spec fn spec_should_listen(&self) -> bool {
        self.result matches Ok(n) && n < self.len
    }

    /// A transfer listens exactly when it must go on, and never goes past the buffer.
    pub open spec fn wf(&self) -> bool {
        &&& self.listening == self.spec_should_listen()
        &&& self.result matches Ok(n) ==> n <= self.len
    }

    /// Starts a transfer of a buffer of `len` bytes.
    pub fn new(len: usize) -> (r: Transfer)
        ensures
            r.wf(),
            r.result == Ok::<usize, ApiError>(0),
            r.len == len,
            r.listening == (0 < len),
    {
        Transfer { listening: 0 < len, result: Ok(0), len }
    }

    /// Whether the transfer must go on.
    pub fn should_listen(&self) -> (r: bool)
        ensures
            r == self.spec_should_listen(),
    {
        match self.result {
            Ok(n) => n < self.len,
            Err(_) => false,
        }
    }

    /// Whether the serial must be called, now that it was notified ready (or not).
    pub fn needs_io(&self, notified: bool) -> (r: bool)
        ensures
            r == (self.listening && notified),
    {
        self.listening && notified
    }

    /// Where the next serial call starts in the buffer (while the transfer goes on).
    pub fn position(&self) -> (r: usize)
        requires
            self.wf(),
            self.listening,
        ensures
            self.result == Ok::<usize, ApiError>(r),
            r < self.len,
    {
        match self.result {
            Ok(n) => n,
            Err(_) => 0,
        }
    }

    /// Records the outcome of a serial call, which transferred at most the rest of the buffer.
    pub fn advance(&mut self, io: Result<usize, ApiError>)
        requires
            old(self).wf(),
            old(self).listening,
            io matches Ok(k) ==> old(self).result->Ok_0 + k <= old(self).len,
        ensures
            final(self).wf(),
            final(self).len == old(self).len,
            final(self).result == match io {
                Ok(k) => Ok::<usize, ApiError>((old(self).result->Ok_0 + k) as usize),
                Err(e) => Err(e),
            },
    {
        let pos = self.position();
        match io {
            Ok(k) => self.result = Ok(pos + k),
            Err(e) => self.result = Err(e),
        }
        if !self.should_listen() {
            self.listening = false;
        }
    }

    /// Updates the transfer after a notification (or not) and the outcome of the serial call
    /// that it then needed, and returns the progress.
    pub fn update(&mut self, notified: bool, io: Result<usize, ApiError>) -> (r: Result<
        usize,
        ApiError,
    >)
        requires
            old(self).wf(),
            old(self).listening && notified ==> (io matches Ok(k) ==> old(self).result->Ok_0 + k
                <= old(self).len),
        ensures
            final(self).wf(),
            final(self).len == old(self).len,
            r == final(self).result,
            !(old(self).listening && notified) ==> *final(self) == *old(self),
            old(self).listening && notified ==> final(self).result == match io {
                Ok(k) => Ok::<usize, ApiError>((old(self).result->Ok_0 + k) as usize),
                Err(e) => Err(e),
            },
    {
        if self.needs_io(notified) {
            self.advance(io);
        }
        self.result
    }

    /// Whether nothing was transferred yet (and nothing failed).
    pub fn is_empty(&self) -> (r: bool)
        ensures
            r == (self.result == Ok::<usize, ApiError>(0)),
    {
        match self.result {
            Ok(n) => n == 0,
            Err(_) => false,
        }
    }

    /// Whether the transfer is over: the buffer is done or an error stopped it.
    pub fn is_done(&self) -> (r: bool)
        ensures
            r == !self.listening,
    {
        !self.listening
    }
}

} // verus!
