//! Turning an `errno` number into its message, from what `strerror_r` wrote.
use crate::system_call::{c_str, c_str_to_string, first_nul};
use vstd::prelude::*;
use vstd::utf8::{decode_utf8, valid_utf8};

verus! {

/// Why an errno has no message.
#[derive(Debug, PartialEq, Eq, Structural)]
pub enum ErrnoError {
    /// `strerror_r` did not know the errno (`EINVAL`).
    InvalidInput,
}

/// `EINVAL`, the code `strerror_r` returns for an unknown errno.
#[verifier::external_body]
fn einval() -> (code: i32)
    ensures
        code == 22,
{
    libc::EINVAL
}

/// The message of an errno, from the code `strerror_r` returned and the buffer it filled.
/// `EINVAL` (22) means an unknown errno; on success (0) the message is the C string in the buffer.
pub fn errno_err_msg(strerror_ret: i32, buf: &[u8]) -> (msg: Result<String, ErrnoError>)
    requires
        strerror_ret == 0 || strerror_ret == 22,
        strerror_ret == 0 ==> first_nul(buf@) >= 0 && valid_utf8(c_str(buf@)),
    ensures
        strerror_ret == 22 ==> msg == Err::<String, ErrnoError>(ErrnoError::InvalidInput),
        strerror_ret == 0 ==> (msg matches Ok(m) && m@ == decode_utf8(c_str(buf@))),
{
    if strerror_ret == einval() {
        return Err(ErrnoError::InvalidInput);
    }
    Ok(c_str_to_string(buf))
}

} // verus!
