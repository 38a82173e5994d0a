//! The text of an MD5 digest.
use crate::text::{hexadecimal, push_hexadecimal};
use vstd::prelude::*;

verus! {

/// The number whose big-endian bytes are `bytes`.
pub open spec fn be_value(bytes: Seq<u8>) -> nat
    decreases bytes.len(),
{
    if bytes.len() == 0 {
        0
    } else {
        be_value(bytes.drop_last()) * 256 + bytes.last() as nat
    }
}

/// `256` to the power `n`.
pub open spec fn pow256(n: nat) -> nat
    decreases n,
{
    if n == 0 {
        1
    } else {
        256 * pow256((n - 1) as nat)
    }
}

proof fn lemma_pow256_grows(i: nat, j: nat)
    requires
        i <= j,
    ensures
        pow256(i) <= pow256(j),
    decreases j,
{
    if i < j {
        lemma_pow256_grows(i, (j - 1) as nat);
    }
}

/// The digest as `{:x}` prints it when read as one big-endian 128-bit number: lower-case
/// hexadecimal without leading zeros.
pub fn md5_digest_hex(digest: [u8; 16]) -> (hex: String)
    ensures
        hex@ == hexadecimal(be_value(digest@)),
{
    let mut value: u128 = 0;
    let mut i: usize = 0;
    proof {
        reveal_with_fuel(pow256, 17);
        assert(pow256(16) == 0x1_0000_0000_0000_0000_0000_0000_0000_0000);
    }
    while i < 16
        invariant
            i <= 16,
            value == be_value(digest@.take(i as int)),
            value < pow256(i as nat),
            pow256(16) == 0x1_0000_0000_0000_0000_0000_0000_0000_0000,
        decreases 16 - i,
    {
        proof {
            assert(digest@.take(i + 1).drop_last() =~= digest@.take(i as int));
            lemma_pow256_grows((i + 1) as nat, 16);
            assert(pow256((i + 1) as nat) == 256 * pow256(i as nat));
        }
        value = value * 256 + digest[i] as u128;
        i = i + 1;
    }
    assert(digest@.take(16) =~= digest@);
    let mut hex = String::new();
    push_hexadecimal(&mut hex, value);
    hex
}

} // verus!
