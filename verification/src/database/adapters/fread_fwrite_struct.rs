//! A user table in a file of records, one after another in id order.
use crate::database::models::user::User;
use vstd::prelude::*;

verus! {

/// Where the record of user `user_id` starts in the file.
pub fn record_offset(user_id: u8) -> (offset: i64)
    requires
        User::user_id_is_valid(user_id),
    ensures
        offset == user_id * User::SIZE,
{
    (user_id as i64) * (User::SIZE as i64)
}

} // verus!
