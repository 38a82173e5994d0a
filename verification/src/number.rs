//! Unsigned integers written in a given radix, as `u16::from_str_radix` and
//! `u32::from_str_radix` read them.
use vstd::prelude::*;

verus! {

/// `char::to_digit(radix)`: the value of `c` as a digit, when it is one in that radix.
pub open spec fn digit_value(c: char, radix: nat) -> Option<nat> {
    let v: nat = if '0' <= c && c <= '9' {
        (c as nat - 48) as nat
    } else if 'a' <= c && c <= 'z' {
        (c as nat - 87) as nat
    } else if 'A' <= c && c <= 'Z' {
        (c as nat - 55) as nat
    } else {
        36
    };
    if v < radix {
        Some(v)
    } else {
        None
    }
}

/// Every character of `ds` is a digit in `radix`.
pub open spec fn all_digits(ds: Seq<char>, radix: nat) -> bool {
    forall|i: int| 0 <= i < ds.len() ==> (#[trigger] digit_value(ds[i], radix)) is Some
}

/// The number the digits `ds` denote in `radix`, most significant first.
pub open spec fn digits_value(ds: Seq<char>, radix: nat) -> nat
    decreases ds.len(),
{
    if ds.len() == 0 {
        0
    } else {
        digits_value(ds.drop_last(), radix) * radix + digit_value(ds.last(), radix).unwrap()
    }
}

/// The digits of `s` once an optional leading `'+'` is set aside.
pub open spec fn unsigned_digits(s: Seq<char>) -> Seq<char> {
    if s.len() > 0 && s[0] == '+' {
        s.drop_first()
    } else {
        s
    }
}

/// What `from_str_radix` of an unsigned type whose largest value is `max` gives for `s`:
/// an optional `'+'`, then at least one digit, and a value no larger than `max`.
pub open spec fn parse_unsigned(s: Seq<char>, radix: nat, max: nat) -> Option<nat> {
    let ds = unsigned_digits(s);
    if ds.len() == 0 || !all_digits(ds, radix) || digits_value(ds, radix) > max {
        None
    } else {
        Some(digits_value(ds, radix))
    }
}

/// Reading more digits never makes the number smaller.
proof fn lemma_digits_value_grows(ds: Seq<char>, radix: nat, k: int)
    requires
        1 <= radix,
        0 <= k <= ds.len(),
        all_digits(ds, radix),
    ensures
        digits_value(ds.take(k), radix) <= digits_value(ds, radix),
    decreases ds.len() - k,
{
    if k < ds.len() {
        let next = ds.take(k + 1);
        assert(next.drop_last() =~= ds.take(k));
        assert(digit_value(next.last(), radix) is Some) by {
            assert(next.last() == ds[k]);
        }
        let x = digits_value(ds.take(k), radix);
        assert(x * radix >= x) by (nonlinear_arith)
            requires
                radix >= 1,
        ;
        lemma_digits_value_grows(ds, radix, k + 1);
    } else {
        assert(ds.take(k) =~= ds);
    }
}

pub fn digit_of(c: char, radix: u64) -> (r: Option<u64>)
    requires
        2 <= radix <= 36,
    ensures
        r matches Some(d) ==> digit_value(c, radix as nat) == Some(d as nat),
        r is None ==> digit_value(c, radix as nat) is None,
{
    let v: u64 = if '0' <= c && c <= '9' {
        (c as u64) - 48
    } else if 'a' <= c && c <= 'z' {
        (c as u64) - 87
    } else if 'A' <= c && c <= 'Z' {
        (c as u64) - 55
    } else {
        36
    };
    if v < radix {
        Some(v)
    } else {
        None
    }
}

/// Reads `v` as an unsigned number in `radix` no larger than `max`, as `from_str_radix` does.
pub fn parse_unsigned_chars(v: &[char], radix: u64, max: u64) -> (r: Option<u64>)
    requires
        2 <= radix <= 36,
        max <= u32::MAX,
    ensures
        r matches Some(x) ==> parse_unsigned(v@, radix as nat, max as nat) == Some(x as nat),
        r is None ==> parse_unsigned(v@, radix as nat, max as nat) is None,
{
    let n = v.len();
    let mut i: usize = 0;
    if n > 0 && v[0] == '+' {
        i = 1;
    }
    let ghost ds = unsigned_digits(v@);
    assert(ds =~= v@.subrange(i as int, n as int));
    if i == n {
        return None;
    }
    let start = i;
    let mut acc: u64 = 0;
    while i < n
        invariant
            start <= i <= n,
            start < n,
            n == v@.len(),
            2 <= radix <= 36,
            max <= u32::MAX,
            ds == v@.subrange(start as int, n as int),
            ds == unsigned_digits(v@),
            acc <= max,
            acc as nat == digits_value(ds.take(i - start), radix as nat),
            all_digits(ds.take(i - start), radix as nat),
        decreases n - i,
    {
        let ghost k = i - start;
        assert(ds.take(k + 1).drop_last() =~= ds.take(k));
        assert(ds.take(k + 1).last() == v@[i as int]);
        match digit_of(v[i], radix) {
            None => {
                assert(!all_digits(ds, radix as nat)) by {
                    assert(ds[k] == v@[i as int]);
                }
                return None;
            },
            Some(d) => {
                assert(acc * radix + d <= u32::MAX * 36 + 36) by (nonlinear_arith)
                    requires
                        acc <= u32::MAX,
                        radix <= 36,
                        d < 36,
                ;
                let next = acc * radix + d;
                assert(all_digits(ds.take(k + 1), radix as nat)) by {
                    assert forall|j: int| 0 <= j < k + 1 implies (#[trigger] digit_value(
                        ds.take(k + 1)[j],
                        radix as nat,
                    )) is Some by {
                        if j < k {
                            assert(ds.take(k + 1)[j] == ds.take(k)[j]);
                        }
                    }
                }
                if next > max {
                    proof {
                        if all_digits(ds, radix as nat) {
                            lemma_digits_value_grows(ds, radix as nat, k + 1);
                        }
                    }
                    return None;
                }
                acc = next;
            },
        }
        i = i + 1;
    }
    assert(ds.take(n - start) =~= ds);
    Some(acc)
}

} // verus!
