use linux_programming::strftime;
use linux_programming::time;

#[test]
fn strftime_test_format_timestamp_with_nanosecond() {
    // 1_625_277_279 in UTC+8: 2021-07-03 09:54:39, tm_gmtoff 28800, no daylight saving
    assert_eq!(
        strftime::format_timestamp_with_nanosecond("2021-07-03 09:54:39", 444_706_875, 28800),
        "2021-07-03 09:54:39.444706875 +0800"
    );
}

#[test]
fn time_test_format_timestamp_with_nanosecond() {
    assert_eq!(
        time::format_timestamp_with_nanosecond("2021-07-03T09:54:39+0800", 444_706_875, 28800),
        "2021-07-03T09:54:39.444706875 +0800"
    );
}

#[test]
fn offsets_west_of_utc_with_daylight_saving_counted() {
    // Denver: MST(UTC-07) in winter; in summer localtime_r gives MDT's -21600 with tm_isdst set
    assert_eq!(
        strftime::format_timestamp_with_nanosecond("2021-03-01 10:00:00", 5, -25200),
        "2021-03-01 10:00:00.5 -0700"
    );
    assert_eq!(
        strftime::format_timestamp_with_nanosecond("2021-07-02 19:54:39", 0, -21600),
        "2021-07-02 19:54:39.0 -0600"
    );
    assert_eq!(
        time::format_timestamp_with_nanosecond("2021-07-02T19:54:39-0600", 0, -21600),
        "2021-07-02T19:54:39.0 -0600"
    );
    assert_eq!(
        strftime::format_timestamp_with_nanosecond("1970-01-01 00:00:00", 0, 0),
        "1970-01-01 00:00:00.0 +0000"
    );
    assert_eq!(
        strftime::format_timestamp_with_nanosecond("2021-01-01 00:00:00", -1, 50400),
        "2021-01-01 00:00:00.-1 +1400"
    );
}

#[test]
fn offsets_round_toward_zero() {
    // UTC+05:30 and UTC-03:30
    assert_eq!(strftime::timezone_hours_of(19800), 5);
    assert_eq!(strftime::timezone_hours_of(-12600), -3);
    assert_eq!(strftime::timezone_hours_of(-3599), 0);
    assert_eq!(strftime::timezone_hours_of(i64::MIN), i64::MIN / 3600);
}

#[test]
fn wide_offsets_keep_all_digits() {
    assert_eq!(
        strftime::format_with_nanosecond("t", 1, 123),
        "t.1 +12300"
    );
    assert_eq!(strftime::format_with_nanosecond("t", i64::MIN, -9), "t.-9223372036854775808 -0900");
}
