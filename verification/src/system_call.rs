//! convert some system call return type to Rust type
//! example getcwd "return" [c_char: N], convert it to Rust friendly String
use vstd::prelude::*;
use vstd::utf8::{decode_utf8, valid_utf8};

verus! {

/// The position of the first nul byte of `buf`, or `-1` when it has none.
pub open spec fn first_nul(buf: Seq<u8>) -> int
    decreases buf.len(),
{
    if buf.len() == 0 {
        -1
    } else {
        let p = first_nul(buf.drop_last());
        if p >= 0 {
            p
        } else if buf.last() == 0 {
            buf.len() - 1
        } else {
            -1
        }
    }
}

/// The C string a buffer holds: its bytes before the first nul.
pub open spec fn c_str(buf: Seq<u8>) -> Seq<u8> {
    buf.take(first_nul(buf))
}

/// The bytes of `buf` before its first nul byte (`strlen`).
pub fn c_str_bytes(buf: &[u8]) -> (bytes: Vec<u8>)
    requires
        first_nul(buf@) >= 0,
    ensures
        bytes@ == c_str(buf@),
        first_nul(buf@) < buf@.len(),
        forall|i: int| 0 <= i < bytes@.len() ==> bytes@[i] != 0,
{
    let n = buf.len();
    let mut bytes: Vec<u8> = Vec::new();
    let mut i: usize = 0;
    while i < n
        invariant
            n == buf@.len(),
            i <= n,
            first_nul(buf@) >= 0,
            first_nul(buf@.take(i as int)) == -1,
            bytes@ == buf@.take(i as int),
        decreases n - i,
    {
        assert(buf@.take(i + 1).drop_last() =~= buf@.take(i as int));
        if buf[i] == 0 {
            proof {
                lemma_first_nul_prefix(buf@, i + 1);
                lemma_no_nul_before(buf@, i as int);
            }
            return bytes;
        }
        bytes.push(buf[i]);
        i = i + 1;
        assert(bytes@ =~= buf@.take(i as int));
    }
    assert(buf@.take(n as int) =~= buf@);
    assert(false);
    bytes
}

/// A nul found among the first `k` bytes is the first nul of the buffer.
proof fn lemma_first_nul_prefix(buf: Seq<u8>, k: int)
    requires
        0 <= k <= buf.len(),
        first_nul(buf.take(k)) >= 0,
    ensures
        first_nul(buf) == first_nul(buf.take(k)),
    decreases buf.len() - k,
{
    if k < buf.len() {
        assert(buf.take(k + 1).drop_last() =~= buf.take(k));
        lemma_first_nul_prefix(buf, k + 1);
    } else {
        assert(buf.take(k) =~= buf);
    }
}

/// With no nul among the first `k` bytes, no byte before the `k`-th is nul.
proof fn lemma_no_nul_before(buf: Seq<u8>, k: int)
    requires
        0 <= k <= buf.len(),
        first_nul(buf.take(k)) == -1,
    ensures
        forall|i: int| 0 <= i < k ==> buf[i] != 0,
    decreases k,
{
    if k > 0 {
        assert(buf.take(k).drop_last() =~= buf.take(k - 1));
        assert(buf.take(k).last() == buf[k - 1]);
        if first_nul(buf.take(k - 1)) >= 0 {
            assert(first_nul(buf.take(k)) >= 0);
        }
        lemma_no_nul_before(buf, k - 1);
    }
}

/// `String::from_utf8` on bytes that are valid UTF-8: the characters they encode.
#[verifier::external_body]
pub(crate) fn utf8_string(bytes: Vec<u8>) -> (s: String)
    requires
        valid_utf8(bytes@),
    ensures
        s@ == decode_utf8(bytes@),
{
    String::from_utf8(bytes).unwrap()
}

/// The text of a C string held in `buf`, as `getcwd` and `strerror_r` fill their buffers.
pub fn c_str_to_string(buf: &[u8]) -> (s: String)
    requires
        first_nul(buf@) >= 0,
        valid_utf8(c_str(buf@)),
    ensures
        s@ == decode_utf8(c_str(buf@)),
{
    utf8_string(c_str_bytes(buf))
}

} // verus!
