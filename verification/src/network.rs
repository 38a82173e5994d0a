//! ICMP header layout and the checksum a ping sends, and the text `host` prints for a
//! resolved name.
#![allow(non_camel_case_types)]
use crate::text::{decimal, push_char, push_decimal, push_str};
use vstd::prelude::*;
use vstd::arithmetic::div_mod::{lemma_add_mod_noop_right, lemma_mod_multiples_vanish, lemma_mod_sub_multiples_vanish, lemma_small_mod};

verus! {

/// icmphdr.type usually use ICMP_ECHO
pub const ICMP_ECHO: u8 = 8;

/// The ICMP header.
pub struct icmphdr {
    pub type_: u8,
    pub code: u8,
    pub checksum: u16,
    pub un: un,
}

/// The last four bytes of the header, read by message type.
#[derive(Copy)]
pub union un {
    echo: echo,
    gateway: u32,
    frag: frag,
}

impl Clone for un {
    fn clone(&self) -> Self {
        *self
    }
}

/// Identifier and sequence number of an echo request or reply.
#[derive(Clone, Copy)]
pub struct echo {
    pub id: u16,
    pub sequence: u16,
}

/// Path MTU of a "fragmentation needed" message.
#[derive(Clone, Copy)]
pub struct frag {
    __glibc_reserved: u16,
    mtu: u16,
}

/// The big-endian 16-bit word `k` of `bytes` (bytes `2k` and `2k + 1`). A last byte
/// without a partner is padded with a zero octet.
pub open spec fn word_at(bytes: Seq<u8>, k: int) -> nat {
    let low: nat = if 2 * k + 1 < bytes.len() {
        bytes[2 * k + 1] as nat
    } else {
        0
    };
    (bytes[2 * k] as nat) * 256 + low
}

/// How many 16-bit words `bytes` makes, the padded last one included.
pub open spec fn word_count(bytes: Seq<u8>) -> int {
    ((bytes.len() + 1) / 2) as int
}

/// The sum of the words `0..n` of `bytes`.
pub open spec fn words_sum(bytes: Seq<u8>, n: int) -> nat
    decreases n,
{
    if n <= 0 {
        0
    } else {
        words_sum(bytes, n - 1) + word_at(bytes, n - 1)
    }
}

/// The sum of every word of a message, starting with the word of type and code.
pub open spec fn message_sum(bytes: Seq<u8>) -> nat {
    words_sum(bytes, word_count(bytes))
}

/// The ones' complement sum a plain sum stands for: the carry above 16 bits is added
/// back (end-around carry) until the sum fits in 16 bits.
pub open spec fn end_around_carry(sum: nat) -> nat
    decreases sum,
{
    if sum < 65536 {
        sum
    } else {
        proof {
            assert(sum / 65536 + sum % 65536 < sum);
        }
        end_around_carry(sum / 65536 + sum % 65536)
    }
}

/// The checksum of a message (RFC 792): the 16-bit ones' complement of the ones' complement
/// sum of all its words.
pub open spec fn checksum(bytes: Seq<u8>) -> nat {
    (65535 - end_around_carry(message_sum(bytes))) as nat
}

proof fn lemma_carry_step_smaller(sum: nat)
    requires
        sum >= 65536,
    ensures
        sum / 65536 + sum % 65536 < sum,
{
}

/// What the end-around carry leaves of a sum: 0 for 0, otherwise the value in `1..=65535`
/// that is congruent to the sum modulo 65535.
proof fn lemma_end_around_carry_residue(sum: nat)
    ensures
        end_around_carry(sum) == (if sum == 0 {
            0
        } else {
            ((sum - 1) % 65535 + 1) as nat
        }),
    decreases sum,
{
    if sum >= 65536 {
        let q = sum / 65536;
        let r = sum % 65536;
        lemma_carry_step_smaller(sum);
        assert(q >= 1 && q + r == sum - 65535 * q);
        lemma_end_around_carry_residue((q + r) as nat);
        assert((65535 * q + (q + r - 1)) % 65535 == (q + r - 1) % 65535) by {
            lemma_mod_multiples_vanish(q as int, q + r - 1, 65535);
        }
    }
}

/// Carrying early changes nothing: a sum may be folded before more words are added.
proof fn lemma_end_around_carry_absorbs(a: nat, w: nat)
    ensures
        end_around_carry(a + w) == end_around_carry(end_around_carry(a) + w),
        end_around_carry(a) < 65536,
{
    lemma_end_around_carry_residue(a);
    lemma_end_around_carry_residue(a + w);
    lemma_end_around_carry_residue(end_around_carry(a) + w);
    if a > 0 {
        lemma_add_mod_noop_right(w as int, a - 1, 65535);
        assert(end_around_carry(a) + w - 1 == w + (a - 1) % 65535);
    }
}

/// One carry is enough for a sum of two 16-bit values.
proof fn lemma_end_around_carry_once(t: nat)
    requires
        t <= 131070,
    ensures
        end_around_carry(t) == (if t >= 65536 {
            t - 65535
        } else {
            t as int
        }),
{
    lemma_end_around_carry_residue(t);
    if t >= 65536 {
        lemma_mod_sub_multiples_vanish(t - 1, 65535);
        lemma_small_mod((t - 1 - 65535) as nat, 65535);
    } else if t > 0 {
        lemma_small_mod((t - 1) as nat, 65535);
    }
}

/// The checksum of an ICMP message (RFC 792): the 16-bit ones' complement of the ones'
/// complement sum of the message's 16-bit words, starting with the type. A message of odd
/// length is padded with a zero octet. The checksum field should hold 0 while the
/// checksum is computed.
pub fn icmq_checksum(bytes: &[u8]) -> (r: u16)
    ensures
        r == checksum(bytes@),
{
    let len = bytes.len();
    let n = len / 2 + len % 2;
    let mut sum: u32 = 0;
    let mut k: usize = 0;
    while k < n
        invariant
            len == bytes@.len(),
            n == word_count(bytes@),
            k <= n,
            sum < 65536,
            sum == end_around_carry(words_sum(bytes@, k as int)),
        decreases n - k,
    {
        let high = bytes[2 * k] as u32;
        let low: u32 = if 2 * k + 1 < len {
            bytes[2 * k + 1] as u32
        } else {
            0
        };
        let word = high * 256 + low;
        assert(word == word_at(bytes@, k as int));
        let total = sum + word;
        proof {
            lemma_end_around_carry_absorbs(words_sum(bytes@, k as int), word as nat);
            lemma_end_around_carry_once(total as nat);
        }
        sum = if total >= 65536 {
            total - 65535
        } else {
            total
        };
        k = k + 1;
    }
    proof {
        lemma_end_around_carry_absorbs(message_sum(bytes@), 0);
    }
    (65535 - sum) as u16
}

/// Sums of words that agree agree.
proof fn lemma_words_sum_eq(a: Seq<u8>, b: Seq<u8>, n: int)
    requires
        forall|k: int| 0 <= k < n ==> word_at(a, k) == word_at(b, k),
    ensures
        words_sum(a, n) == words_sum(b, n),
    decreases n,
{
    if n > 0 {
        lemma_words_sum_eq(a, b, n - 1);
        assert(word_at(a, n - 1) == word_at(b, n - 1));
    }
}

/// An odd message is checksummed as if padded with one zero octet (RFC 792).
pub proof fn law_checksum_pads_odd_length(bytes: Seq<u8>)
    requires
        bytes.len() % 2 == 1,
    ensures
        checksum(bytes) == checksum(bytes.push(0)),
{
    let padded = bytes.push(0);
    assert(word_count(padded) == word_count(bytes));
    assert forall|k: int| 0 <= k < word_count(bytes) implies word_at(bytes, k) == word_at(
        padded,
        k,
    ) by {
        assert(padded[2 * k] == bytes[2 * k]);
        if 2 * k + 1 < bytes.len() {
            assert(padded[2 * k + 1] == bytes[2 * k + 1]);
        }
    }
    lemma_words_sum_eq(bytes, padded, word_count(bytes));
}

/// With word 1 set to `c` in place of 0, the sum of the words grows by `c`.
proof fn lemma_words_sum_with_checksum(bytes: Seq<u8>, sent: Seq<u8>, c: nat, n: int)
    requires
        bytes.len() == sent.len(),
        bytes.len() >= 4,
        bytes[2] == 0,
        bytes[3] == 0,
        forall|i: int| 0 <= i < bytes.len() && i != 2 && i != 3 ==> sent[i] == bytes[i],
        (sent[2] as nat) * 256 + (sent[3] as nat) == c,
        2 <= n,
        2 * n <= bytes.len() + 1,
    ensures
        words_sum(sent, n) == words_sum(bytes, n) + c,
    decreases n,
{
    if n > 2 {
        lemma_words_sum_with_checksum(bytes, sent, c, n - 1);
        let k = n - 1;
        assert(sent[2 * k] == bytes[2 * k]);
        if 2 * k + 1 < bytes.len() {
            assert(sent[2 * k + 1] == bytes[2 * k + 1]);
        }
        assert(word_at(sent, k) == word_at(bytes, k));
    } else {
        assert(sent[0] == bytes[0] && sent[1] == bytes[1]);
        assert(word_at(sent, 0) == word_at(bytes, 0));
        assert(word_at(bytes, 1) == 0);
        assert(word_at(sent, 1) == c);
        assert(words_sum(sent, 0) == 0 && words_sum(bytes, 0) == 0);
        assert(words_sum(sent, 1) == word_at(sent, 0));
        assert(words_sum(bytes, 1) == word_at(bytes, 0));
    }
}

/// A receiver's check (RFC 792): once a message's checksum is written into its checksum
/// field, which held 0 while it was computed, the checksum of the message is 0.
pub proof fn law_checksum_verifies(bytes: Seq<u8>)
    requires
        bytes.len() >= 4,
        bytes[2] == 0,
        bytes[3] == 0,
    ensures
        ({
            let c = checksum(bytes);
            checksum(bytes.update(2, (c / 256) as u8).update(3, (c % 256) as u8)) == 0
        }),
{
    let c = checksum(bytes);
    let sent = bytes.update(2, (c / 256) as u8).update(3, (c % 256) as u8);
    let s = message_sum(bytes);
    lemma_end_around_carry_absorbs(s, 0);
    assert(c <= 65535);
    assert((sent[2] as nat) * 256 + (sent[3] as nat) == c);
    lemma_words_sum_with_checksum(bytes, sent, c, word_count(bytes));
    assert(message_sum(sent) == s + c);
    lemma_end_around_carry_absorbs(s, c);
    assert(end_around_carry(s) + c == 65535);
    assert(end_around_carry(65535) == 65535);
}

/// Changing byte `i` shifts the sum of the words by the change of that byte, counted 256
/// times when it is the high byte of its word.
proof fn lemma_words_sum_update(bytes: Seq<u8>, i: int, b: u8, n: int)
    requires
        0 <= i < bytes.len(),
        0 <= n <= word_count(bytes),
    ensures
        words_sum(bytes.update(i, b), n) == words_sum(bytes, n) + (if i / 2 < n {
            (b - bytes[i]) * (if i % 2 == 0 {
                256int
            } else {
                1int
            })
        } else {
            0int
        }),
    decreases n,
{
    if n > 0 {
        lemma_words_sum_update(bytes, i, b, n - 1);
        let u = bytes.update(i, b);
        let k = n - 1;
        assert(2 * k < bytes.len());
        if k == i / 2 {
            if i % 2 == 0 {
                assert(i == 2 * k);
                if 2 * k + 1 < bytes.len() {
                    assert(u[2 * k + 1] == bytes[2 * k + 1]);
                }
            } else {
                assert(i == 2 * k + 1);
                assert(u[2 * k] == bytes[2 * k]);
            }
        } else {
            assert(u[2 * k] == bytes[2 * k]);
            if 2 * k + 1 < bytes.len() {
                assert(u[2 * k + 1] == bytes[2 * k + 1]);
            }
            assert(word_at(u, k) == word_at(bytes, k));
        }
    }
}

/// The checksum sees every byte of the message, whatever its length: changing any one
/// byte, header or payload, changes the checksum. (A change of one byte moves the sum of the
/// words by less than 65535, which the ones' complement sum never absorbs.)
pub proof fn law_checksum_sees_every_byte(bytes: Seq<u8>, i: int, b: u8)
    requires
        0 <= i < bytes.len(),
        b != bytes[i],
    ensures
        checksum(bytes.update(i, b)) != checksum(bytes),
{
    let u = bytes.update(i, b);
    assert(word_count(u) == word_count(bytes));
    assert(i / 2 < word_count(bytes));
    lemma_words_sum_update(bytes, i, b, word_count(bytes));
    let s0 = message_sum(bytes);
    let s1 = message_sum(u);
    let d: int = s1 - s0;
    assert(d != 0 && -65280 <= d <= 65280) by {
        assert(-255 <= b - bytes[i] <= 255);
        if i % 2 == 0 {
            assert(d == (b - bytes[i]) * 256);
        } else {
            assert(d == b - bytes[i]);
        }
    }
    lemma_end_around_carry_residue(s0);
    lemma_end_around_carry_residue(s1);
    lemma_end_around_carry_absorbs(s0, 0);
    lemma_end_around_carry_absorbs(s1, 0);
    if s0 > 0 && s1 > 0 {
        if (s0 - 1) % 65535 == (s1 - 1) % 65535 {
            assert((s0 - 1) == 65535 * ((s0 - 1) / 65535) + (s0 - 1) % 65535);
            assert((s1 - 1) == 65535 * ((s1 - 1) / 65535) + (s1 - 1) % 65535);
            let q0 = (s0 - 1) / 65535;
            let q1 = (s1 - 1) / 65535;
            assert(d == 65535 * (q1 - q0));
            assert(false) by (nonlinear_arith)
                requires
                    d == 65535 * (q1 - q0),
                    d != 0,
                    -65280 <= d <= 65280,
            ;
        }
    } else if s0 == 0 {
        lemma_small_mod((s1 - 1) as nat, 65535);
    } else {
        lemma_small_mod((s0 - 1) as nat, 65535);
    }
}

/// How many times ping polls for a reply and sends an echo before it gives up.
pub const PING_TRIES: u32 = 10;

/// What ping does next.
#[derive(Debug, PartialEq, Eq, Structural)]
pub enum PingAction {
    /// Poll the socket, without waiting, for a reply.
    Receive,
    /// Send one echo request, then sleep before the next try.
    SendEcho,
    /// A reply came: report success.
    Succeed,
    /// Every try went unanswered: report failure.
    GiveUp,
}

/// The retry policy of ping. `tries` is how many echoes were sent so far; `received` is
/// `None` at the start of a try and, once the socket was polled, whether a reply came.
/// Each try polls first and sends only when nothing came; after `PING_TRIES` unanswered
/// tries ping gives up.
pub fn ping_step(tries: u32, received: Option<bool>) -> (action: PingAction)
    ensures
        action == (match received {
            None => if tries < PING_TRIES {
                PingAction::Receive
            } else {
                PingAction::GiveUp
            },
            Some(true) => PingAction::Succeed,
            Some(false) => PingAction::SendEcho,
        }),
{
    match received {
        None => if tries < PING_TRIES {
            PingAction::Receive
        } else {
            PingAction::GiveUp
        },
        Some(true) => PingAction::Succeed,
        Some(false) => PingAction::SendEcho,
    }
}

/// The payload a ping sends after the header: byte `i` is the digit character `'0' + i`,
/// except the last byte, which stays 0.
pub fn echo_payload(msg_len: usize) -> (msg: Vec<u8>)
    requires
        1 <= msg_len <= 209,
    ensures
        msg@.len() == msg_len,
        forall|i: int| 0 <= i < msg_len - 1 ==> #[trigger] msg@[i] == 48 + i,
        msg@[msg_len - 1] == 0,
{
    let mut msg: Vec<u8> = Vec::new();
    let mut i: usize = 0;
    while i < msg_len - 1
        invariant
            1 <= msg_len <= 209,
            i <= msg_len - 1,
            msg@.len() == i,
            forall|j: int| 0 <= j < i ==> #[trigger] msg@[j] == 48 + j,
        decreases msg_len - 1 - i,
    {
        msg.push(i as u8 + 48);
        i = i + 1;
    }
    msg.push(0);
    msg
}

/// `a.b.c.d`: the four octets of an address in decimal.
pub open spec fn dotted_quad(addr: Seq<u8>) -> Seq<char> {
    decimal(addr[0] as nat) + seq!['.'] + decimal(addr[1] as nat) + seq!['.'] + decimal(
        addr[2] as nat,
    ) + seq!['.'] + decimal(addr[3] as nat)
}

/// Appends the dotted form of an IPv4 address.
pub fn push_ipv4(s: &mut String, addr: [u8; 4])
    ensures
        final(s)@ == old(s)@ + dotted_quad(addr@),
{
    push_decimal(s, addr[0] as u64);
    push_char(s, '.');
    push_decimal(s, addr[1] as u64);
    push_char(s, '.');
    push_decimal(s, addr[2] as u64);
    push_char(s, '.');
    push_decimal(s, addr[3] as u64);
    assert(s@ =~= old(s)@ + dotted_quad(addr@));
}

/// The line `host` prints for the canonical name: `<alias> is an alias for <hostname>`.
pub fn alias_line(hostname_alias: &str, hostname: &str) -> (line: String)
    ensures
        line@ == hostname_alias@ + " is an alias for "@ + hostname@,
{
    let mut line = String::new();
    push_str(&mut line, hostname_alias);
    push_str(&mut line, " is an alias for ");
    push_str(&mut line, hostname);
    assert(line@ =~= hostname_alias@ + " is an alias for "@ + hostname@);
    line
}

/// The line `host` prints for each address: `<alias> has address a.b.c.d`.
pub fn address_line(hostname_alias: &str, addr: [u8; 4]) -> (line: String)
    ensures
        line@ == hostname_alias@ + " has address "@ + dotted_quad(addr@),
{
    let mut line = String::new();
    push_str(&mut line, hostname_alias);
    push_str(&mut line, " has address ");
    push_ipv4(&mut line, addr);
    assert(line@ =~= hostname_alias@ + " has address "@ + dotted_quad(addr@));
    line
}

/// The address a resolved name stands for: the first one listed.
pub fn first_address(addrs: &[[u8; 4]]) -> (addr: [u8; 4])
    requires
        addrs@.len() > 0,
    ensures
        addr == addrs@[0],
{
    addrs[0]
}

} // verus!
