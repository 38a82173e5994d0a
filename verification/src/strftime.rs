//! A local time as `YYYY-MM-DD HH:MM:SS.nanoseconds +HH00`, from what `localtime_r`
//! and `strftime` give for a timestamp.
use crate::text::{
    decimal, digit_char, push_char, push_decimal, push_signed_decimal, push_str, signed_decimal,
};
use crate::number::{all_digits, digit_value, digits_value};
use vstd::prelude::*;

verus! {

/// Integer division that rounds toward zero, as Rust's `/` does.
pub open spec fn trunc_div(a: int, b: int) -> int {
    if a >= 0 {
        a / b
    } else {
        -((-a) / b)
    }
}

/// The hours east of UTC shown for a local time: whole hours of `tm_gmtoff`, rounded toward
/// zero. `tm_gmtoff` is the offset in force, daylight saving included: MST is UTC-07 and
/// MDT, with daylight saving, UTC-06.
pub open spec fn timezone_hours(tm_gmtoff: i64) -> int {
    trunc_div(tm_gmtoff as int, 3600)
}

/// `{:+03}00` of `hours`: the sign, the hours in at least two digits, then `00`.
pub open spec fn offset_text(hours: int) -> Seq<char> {
    let magnitude: nat = if hours < 0 {
        (-hours) as nat
    } else {
        hours as nat
    };
    seq![
        if hours < 0 {
            '-'
        } else {
            '+'
        },
    ] + (if magnitude < 10 {
        seq!['0']
    } else {
        Seq::<char>::empty()
    }) + decimal(magnitude) + seq!['0', '0']
}

/// `{}.{} {:+03}00` of the date and time, the nanoseconds and the offset in hours.
pub open spec fn with_nanosecond(ymd_hms: Seq<char>, nanosecond: i64, hours: int) -> Seq<char> {
    ymd_hms + seq!['.'] + signed_decimal(nanosecond as int) + seq![' '] + offset_text(hours)
}

/// The offset in hours shown for a local time.
pub fn timezone_hours_of(tm_gmtoff: i64) -> (hours: i64)
    ensures
        hours == timezone_hours(tm_gmtoff),
{
    if tm_gmtoff >= 0 {
        tm_gmtoff / 3600
    } else {
        let magnitude: u64 = ((-(tm_gmtoff + 1)) as u64) + 1;
        -((magnitude / 3600) as i64)
    }
}

/// Appends `{:+03}00` of `hours`.
pub fn push_offset(s: &mut String, hours: i64)
    ensures
        final(s)@ == old(s)@ + offset_text(hours as int),
{
    let magnitude: u64 = if hours < 0 {
        ((-(hours + 1)) as u64) + 1
    } else {
        hours as u64
    };
    if hours < 0 {
        push_char(s, '-');
    } else {
        push_char(s, '+');
    }
    if magnitude < 10 {
        push_char(s, '0');
    }
    push_decimal(s, magnitude);
    push_char(s, '0');
    push_char(s, '0');
    assert(s@ =~= old(s)@ + offset_text(hours as int));
}

/// `{}.{} {:+03}00` of a date and time, nanoseconds and an offset in hours.
pub fn format_with_nanosecond(ymd_hms: &str, nanosecond: i64, hours: i64) -> (out: String)
    ensures
        out@ == with_nanosecond(ymd_hms@, nanosecond, hours as int),
{
    let mut out = String::new();
    push_str(&mut out, ymd_hms);
    push_char(&mut out, '.');
    push_signed_decimal(&mut out, nanosecond);
    push_char(&mut out, ' ');
    push_offset(&mut out, hours);
    assert(out@ =~= with_nanosecond(ymd_hms@, nanosecond, hours as int));
    out
}

/// output example: 2021-07-03 09:54:39.444706875 +0800
///
/// `ymd_hms` is what `strftime` made of the local time with `%Y-%m-%d %H:%M:%S`;
/// `tm_gmtoff` is the offset of that local time, which already counts daylight saving:
/// in Denver it is UTC-07 (MST) in winter and UTC-06 (MDT) in summer.
pub fn format_timestamp_with_nanosecond(ymd_hms: &str, nanosecond: i64, tm_gmtoff: i64) -> (out: String)
    ensures
        out@ == with_nanosecond(ymd_hms@, nanosecond, timezone_hours(tm_gmtoff)),
{
    let hours = timezone_hours_of(tm_gmtoff);
    format_with_nanosecond(ymd_hms, nanosecond, hours)
}

/// The digits of `decimal(n)` are decimal digits that read back as `n`; one digit below
/// 10, more and no leading zero from 10 on.
proof fn lemma_decimal_reads_back(n: nat)
    ensures
        all_digits(decimal(n), 10),
        digits_value(decimal(n), 10) == n,
        n < 10 ==> decimal(n).len() == 1,
        n >= 10 ==> decimal(n).len() >= 2 && decimal(n)[0] != '0',
    decreases n,
{
    let d = n % 10;
    assert(digit_char(d) == (d + 48) as char);
    assert(digit_value(digit_char(d), 10) == Some(d));
    if n >= 10 {
        lemma_decimal_reads_back(n / 10);
        let prev = decimal(n / 10);
        let ds = decimal(n);
        assert(ds == prev.push(digit_char(d)));
        assert(ds.drop_last() =~= prev);
        assert forall|i: int| 0 <= i < ds.len() implies (#[trigger] digit_value(ds[i], 10)) is Some by {
            if i < prev.len() {
                assert(ds[i] == prev[i]);
            }
        }
        assert(ds[0] == prev[0]);
        assert(ds.last() == digit_char(d));
        assert(digits_value(ds, 10) == digits_value(prev, 10) * 10 + d);
        assert((n / 10) * 10 + d == n);
        if n / 10 < 10 {
            assert(prev == seq![digit_char(n / 10)]);
            assert(digit_char(n / 10) == ((n / 10) + 48) as char);
        }
    } else {
        assert(decimal(n) == seq![digit_char(n)]);
        assert(decimal(n).drop_last() =~= Seq::<char>::empty());
        assert(digits_value(Seq::<char>::empty(), 10) == 0);
        assert(digits_value(decimal(n), 10) == 0 * 10 + d);
    }
}

/// A leading zero does not change the value of decimal digits.
proof fn lemma_leading_zero(ds: Seq<char>)
    ensures
        digits_value(seq!['0'] + ds, 10) == digits_value(ds, 10),
    decreases ds.len(),
{
    let z = seq!['0'] + ds;
    if ds.len() == 0 {
        assert(z.drop_last() =~= Seq::<char>::empty());
        assert(digit_value('0', 10) == Some(0nat));
        assert(digits_value(Seq::<char>::empty(), 10) == 0);
        assert(ds =~= Seq::<char>::empty());
        assert(digits_value(z, 10) == 0 * 10 + 0);
    } else {
        assert(z.drop_last() =~= seq!['0'] + ds.drop_last());
        assert(z.last() == ds.last());
        lemma_leading_zero(ds.drop_last());
        assert(digits_value(z, 10) == digits_value(z.drop_last(), 10) * 10 + digit_value(
            z.last(),
            10,
        ).unwrap());
    }
}

/// `{:+03}00` of an offset in hours: the sign (`+` for 0 and east, `-` west), then the hours
/// as decimal digits, at least two of them and no leading zero beyond that width, then `00`.
/// Reading the digits back gives the hours without their sign.
pub proof fn law_offset_text_reads_back(hours: int)
    ensures
        ({
            let t = offset_text(hours);
            let digits = t.subrange(1, t.len() - 2);
            &&& t.len() >= 5
            &&& t[0] == (if hours < 0 {
                '-'
            } else {
                '+'
            })
            &&& t.subrange(t.len() - 2, t.len() as int) == seq!['0', '0']
            &&& all_digits(digits, 10)
            &&& digits_value(digits, 10) == (if hours < 0 {
                -hours
            } else {
                hours
            })
            &&& (digits.len() == 2 || (digits.len() > 2 && digits[0] != '0'))
        }),
{
    let m: nat = if hours < 0 {
        (-hours) as nat
    } else {
        hours as nat
    };
    let t = offset_text(hours);
    let dec = decimal(m);
    lemma_decimal_reads_back(m);
    let pad = if m < 10 {
        seq!['0']
    } else {
        Seq::<char>::empty()
    };
    let sign = if hours < 0 {
        '-'
    } else {
        '+'
    };
    assert(t == seq![sign] + pad + dec + seq!['0', '0']);
    let digits = t.subrange(1, t.len() - 2);
    assert(digits =~= pad + dec);
    assert(t.subrange(t.len() - 2, t.len() as int) =~= seq!['0', '0']);
    if m < 10 {
        lemma_leading_zero(dec);
        assert(digits =~= seq!['0'] + dec);
        assert(digit_value('0', 10) == Some(0nat));
        assert forall|i: int| 0 <= i < digits.len() implies (#[trigger] digit_value(digits[i], 10)) is Some by {
            if i > 0 {
                assert(digits[i] == dec[i - 1]);
            }
        }
    } else {
        assert(digits =~= dec);
    }
}

} // verus!
