//! `chmod 777 main.rs`: the three octal digits of a permission.
use vstd::prelude::*;

verus! {

/// An octal digit character.
pub open spec fn is_octal_digit(b: u8) -> bool {
    48 <= b <= 55
}

/// The permission bits three octal digits stand for: user, group, then others.
pub open spec fn permission_of(bits: Seq<u8>) -> nat {
    ((bits[0] - 48) * 64 + (bits[1] - 48) * 8 + (bits[2] - 48)) as nat
}

/// The mode bits of the first three characters of a `chmod` argument, each an octal digit.
pub fn permission_bits(bits: &[u8]) -> (permission: u32)
    requires
        bits@.len() >= 3,
        is_octal_digit(bits@[0]),
        is_octal_digit(bits@[1]),
        is_octal_digit(bits@[2]),
    ensures
        permission == permission_of(bits@),
        permission <= 0o777,
{
    let user_permission = (bits[0] - 48u8) as u32;
    let group_permission = (bits[1] - 48u8) as u32;
    let other_permission = (bits[2] - 48u8) as u32;
    let permission = (user_permission << 6) | (group_permission << 3) | other_permission;
    assert(permission == user_permission * 64 + group_permission * 8 + other_permission) by (bit_vector)
        requires
            permission == (user_permission << 6) | (group_permission << 3) | other_permission,
            user_permission <= 7,
            group_permission <= 7,
            other_permission <= 7,
    ;
    permission
}

} // verus!
