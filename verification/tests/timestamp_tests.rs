use reading_cli::timestamp::format_timestamp;

#[test]
fn zero_means_never_opened() {
    assert_eq!(format_timestamp(0), "never");
}

#[test]
fn timestamps_are_written_as_utc_dates() {
    assert_eq!(format_timestamp(1), "1970-01-01 00:00 UTC");
    assert_eq!(format_timestamp(1_546_300_800), "2019-01-01 00:00 UTC");
    assert_eq!(format_timestamp(1_700_000_000), "2023-11-14 22:13 UTC");
}

#[test]
fn timestamps_beyond_the_signed_range_wrap_like_a_cast() {
    assert_eq!(format_timestamp(u64::MAX), "1969-12-31 23:59 UTC");
    assert_eq!(format_timestamp(1 << 63), "invalid");
}
