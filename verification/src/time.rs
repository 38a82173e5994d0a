//! A local time as `YYYY-MM-DDTHH:MM:SS.nanoseconds +HH00`, from the RFC 3339 text
//! `strftime` gives for it.
use crate::strftime::{format_with_nanosecond, timezone_hours, timezone_hours_of, with_nanosecond};
use vstd::prelude::*;

verus! {

/// How many characters `%z` (`+0800`) takes at the end of an RFC 3339 time.
pub open spec fn numeric_offset_len() -> int {
    5
}

/// output example: 2021-07-03T09:54:39.444706875 +0800
///
/// `rfc_3339` is what `strftime` made of the local time with `%Y-%m-%dT%H:%M:%S%z`;
/// its last five characters, the numeric offset, are replaced by the whole hours of
/// `tm_gmtoff`, the offset of that local time with daylight saving already counted.
pub fn format_timestamp_with_nanosecond(rfc_3339: &str, nanosecond: i64, tm_gmtoff: i64) -> (out: String)
    requires
        rfc_3339.is_ascii(),
        rfc_3339@.len() >= numeric_offset_len(),
    ensures
        out@ == with_nanosecond(
            rfc_3339@.subrange(0, rfc_3339@.len() - numeric_offset_len()),
            nanosecond,
            timezone_hours(tm_gmtoff),
        ),
{
    let n = rfc_3339.unicode_len();
    let ymd_hms = rfc_3339.substring_ascii(0, n - 5);
    let hours = timezone_hours_of(tm_gmtoff);
    format_with_nanosecond(ymd_hms, nanosecond, hours)
}

} // verus!
