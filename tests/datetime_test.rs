use prost_wkt_types::datetime::{days_in_month, year_to_seconds, DateTime, TimestampError};
use prost_wkt_types::text::{parse_duration, parse_timestamp};
use prost_wkt_types::time::{Duration, DurationError, Timestamp};

#[test]
fn epoch_formats_as_rfc3339() {
    assert_eq!(Timestamp { seconds: 0, nanos: 0 }.to_string(), "1970-01-01T00:00:00Z");
}

#[test]
fn duration_fraction_uses_fewest_digits() {
    assert_eq!(Duration { seconds: 10, nanos: 300 }.to_string(), "10.000000300s");
    assert_eq!(Duration { seconds: 0, nanos: 100_000_000 }.to_string(), "0.100s");
    assert_eq!(Duration { seconds: 0, nanos: 123 }.to_string(), "0.000000123s");
    assert_eq!(Duration { seconds: 1, nanos: 123_456_000 }.to_string(), "1.123456s");
    assert_eq!(Duration { seconds: 0, nanos: 0 }.to_string(), "0s");
    assert_eq!(Duration { seconds: 3661, nanos: 500_000_000 }.to_string(), "3661.500s");
    assert_eq!(Duration { seconds: 0, nanos: -999_999_999 }.to_string(), "-0.999999999s");
    assert_eq!(Duration { seconds: -1, nanos: 0 }.to_string(), "-1s");
    assert_eq!(Duration { seconds: i64::MIN, nanos: 0 }.to_string(), "-9223372036854775808s");
}

#[test]
fn timestamp_fraction_uses_fewest_digits() {
    assert_eq!(Timestamp { seconds: 0, nanos: 100_000_000 }.to_string(), "1970-01-01T00:00:00.100Z");
    assert_eq!(Timestamp { seconds: 0, nanos: 123 }.to_string(), "1970-01-01T00:00:00.000000123Z");
    assert_eq!(Timestamp { seconds: 0, nanos: 123_456_000 }.to_string(), "1970-01-01T00:00:00.123456Z");
}

#[test]
fn years_outside_four_digits_are_signed() {
    assert_eq!(Timestamp { seconds: 253402300800, nanos: 0 }.to_string(), "+10000-01-01T00:00:00Z");
    assert_eq!(Timestamp { seconds: -62167219200, nanos: 0 }.to_string(), "0000-01-01T00:00:00Z");
    assert_eq!(Timestamp { seconds: -62198755200, nanos: 0 }.to_string(), "-0001-01-01T00:00:00Z");
    assert_eq!(Timestamp { seconds: i64::MIN, nanos: 0 }.to_string(), "-292277022657-01-27T08:29:52Z");
    assert_eq!(
        Timestamp { seconds: i64::MAX, nanos: 999_999_999 }.to_string(),
        "+292277026596-12-04T15:30:07.999999999Z"
    );
}

#[test]
fn leap_days() {
    assert_eq!(Timestamp { seconds: 951782400, nanos: 0 }.to_string(), "2000-02-29T00:00:00Z");
    assert_eq!(Timestamp { seconds: 4107542400, nanos: 0 }.to_string(), "2100-03-01T00:00:00Z");
    assert_eq!(days_in_month(2000, 2), 29);
    assert_eq!(days_in_month(1900, 2), 28);
    assert_eq!(days_in_month(2024, 2), 29);
    assert_eq!(days_in_month(2023, 4), 30);
    assert_eq!(year_to_seconds(1970), (0, false));
    assert_eq!(year_to_seconds(2000), (946684800, true));
    assert_eq!(year_to_seconds(1969), (-31536000, false));
}

#[test]
fn negative_timestamp_normalizes_forward() {
    let mut t = Timestamp { seconds: 0, nanos: -100 };
    t.normalize();
    assert_eq!(t, Timestamp { seconds: -1, nanos: 999_999_900 });
    assert_eq!(Timestamp::new(-1001, 0), Timestamp { seconds: -1001, nanos: 0 });
    assert_eq!(Timestamp::new(0, -999_999_999), Timestamp { seconds: -1, nanos: 1 });
    assert_eq!(Timestamp::new(5, 2_000_000_000), Timestamp { seconds: 7, nanos: 0 });
}

#[test]
fn normalization_saturates() {
    assert_eq!(Timestamp::new(i64::MAX, 1_000_000_000), Timestamp { seconds: i64::MAX, nanos: 999_999_999 });
    assert_eq!(Timestamp::new(i64::MIN, -1_000_000_000), Timestamp { seconds: i64::MIN, nanos: 0 });
    assert_eq!(Timestamp::new(i64::MIN, -1), Timestamp { seconds: i64::MIN, nanos: 0 });
    let mut d = Duration { seconds: i64::MAX, nanos: 1_000_000_000 };
    d.normalize();
    assert_eq!(d, Duration { seconds: i64::MAX, nanos: 999_999_999 });
    let mut d = Duration { seconds: i64::MIN, nanos: -1_000_000_000 };
    d.normalize();
    assert_eq!(d, Duration { seconds: i64::MIN, nanos: -999_999_999 });
}

#[test]
fn duration_normalization_aligns_signs() {
    assert_eq!(Duration { seconds: 1, nanos: -1 }.normalized(), Duration { seconds: 0, nanos: 999_999_999 });
    assert_eq!(Duration { seconds: -1, nanos: 1 }.normalized(), Duration { seconds: 0, nanos: -999_999_999 });
    assert_eq!(Duration { seconds: 0, nanos: -1_500_000_000 }.normalized(), Duration { seconds: -1, nanos: -500_000_000 });
}

#[test]
fn normalizing_twice_changes_nothing() {
    for (s, n) in [(0i64, 0i32), (i64::MIN, i32::MIN), (i64::MAX, i32::MAX), (-5, 7), (5, -7), (i64::MIN, 0), (i64::MAX, -1)] {
        let once = Timestamp::new(s, n);
        assert_eq!(Timestamp::new(once.seconds, once.nanos), once);
        let d = Duration { seconds: s, nanos: n }.normalized();
        assert_eq!(d.normalized(), d);
    }
}

#[test]
fn text_round_trips() {
    for (s, n) in [(0i64, 0i32), (-1001, 0), (0, -999_999_999), (0, 100_000_000), (0, 123), (-1, 1)] {
        let t = Timestamp { seconds: s, nanos: n };
        assert_eq!(parse_timestamp(&t.to_string()), Some(t.normalized()));
        let d = Duration { seconds: s, nanos: n };
        assert_eq!(parse_duration(&d.to_string()), Some(d.normalized()));
    }
}

#[test]
fn timestamp_offsets_and_separators() {
    assert_eq!(parse_timestamp("1970-01-01T01:00:00+01:00"), Some(Timestamp { seconds: 0, nanos: 0 }));
    assert_eq!(parse_timestamp("1970-01-01 00:00:00-0130"), Some(Timestamp { seconds: 5400, nanos: 0 }));
    assert_eq!(parse_timestamp("1970-01-01t00:00:00z"), Some(Timestamp { seconds: 0, nanos: 0 }));
    assert_eq!(parse_timestamp("1970-01-01T00:00:00+05"), Some(Timestamp { seconds: -18000, nanos: 0 }));
    assert_eq!(parse_timestamp("1970-01-01T00:00:00"), Some(Timestamp { seconds: 0, nanos: 0 }));
    assert_eq!(parse_timestamp("1970-01-02"), Some(Timestamp { seconds: 86400, nanos: 0 }));
    assert_eq!(parse_timestamp("1970-01-01T00:00:00-00:00"), None);
    assert_eq!(parse_timestamp("1970-01-01T00:00:00+24:00"), None);
    assert_eq!(parse_timestamp("1970-01-01T00:00:00Zx"), None);
}

#[test]
fn timestamp_fractions_and_leap_seconds() {
    assert_eq!(parse_timestamp("1970-01-01T00:00:00.5Z"), Some(Timestamp { seconds: 0, nanos: 500_000_000 }));
    assert_eq!(parse_timestamp("1970-01-01T00:00:00.1234567891Z"), Some(Timestamp { seconds: 0, nanos: 123_456_789 }));
    assert_eq!(parse_timestamp("1970-01-01T00:00:00.Z"), None);
    assert_eq!(parse_timestamp("1970-01-01T00:00:60Z"), Some(Timestamp { seconds: 59, nanos: 0 }));
    assert_eq!(parse_timestamp("2021-02-29T00:00:00Z"), None);
}

#[test]
fn extended_years_parse() {
    assert_eq!(parse_timestamp("+10000-01-01T00:00:00Z"), Some(Timestamp { seconds: 253402300800, nanos: 0 }));
    assert_eq!(parse_timestamp("-0001-01-01T00:00:00Z"), Some(Timestamp { seconds: -62198755200, nanos: 0 }));
    assert_eq!(parse_timestamp("+1000-01-01T00:00:00Z"), None);
    assert_eq!(parse_timestamp("-292277022657-01-27T08:29:52Z"), Some(Timestamp { seconds: i64::MIN, nanos: 0 }));
    assert_eq!(parse_timestamp("-292277022657-01-27T08:29:51Z"), None);
    assert_eq!(parse_timestamp("1970-01-01T00:00:00Ż"), None);
}

#[test]
fn durations_parse() {
    assert_eq!(parse_duration("-1.5s"), Some(Duration { seconds: -1, nanos: -500_000_000 }));
    assert_eq!(parse_duration("0.000000001s"), Some(Duration { seconds: 0, nanos: 1 }));
    assert_eq!(parse_duration("1.s"), None);
    assert_eq!(parse_duration("-s"), None);
    assert_eq!(parse_duration("9223372036854775808s"), None);
    assert_eq!(parse_duration("9223372036854775807s"), Some(Duration { seconds: i64::MAX, nanos: 0 }));
    assert_eq!(parse_duration("1s "), None);
}

#[test]
fn calendar_constructors() {
    assert_eq!(Timestamp::date(2000, 1, 1), Ok(Timestamp { seconds: 946684800, nanos: 0 }));
    assert_eq!(Timestamp::date_time(1970, 1, 1, 1, 1, 1), Ok(Timestamp { seconds: 3661, nanos: 0 }));
    assert_eq!(Timestamp::date(2001, 2, 29), Err(TimestampError::InvalidDateTime));
    assert_eq!(Timestamp::date_time_nanos(1970, 1, 1, 0, 0, 0, 1_000_000_000), Err(TimestampError::InvalidDateTime));
    let dt = DateTime::from_timestamp(Timestamp { seconds: 1609459200, nanos: 7 });
    assert_eq!(dt, DateTime { year: 2021, month: 1, day: 1, hour: 0, minute: 0, second: 0, nanos: 7 });
    assert!(dt.is_valid());
    assert_eq!(dt.to_string(), "2021-01-01T00:00:00.000000007Z");
}

#[test]
fn duration_unsigned_conversions() {
    assert_eq!(Duration::try_from_unsigned(10, 100), Ok(Duration { seconds: 10, nanos: 100 }));
    assert_eq!(Duration::try_from_unsigned(u64::MAX, 0), Err(DurationError::OutOfRange));
    assert_eq!(Duration { seconds: 2, nanos: 5 }.to_unsigned(), Ok((2, 5)));
    assert_eq!(Duration { seconds: -2, nanos: -5 }.to_unsigned(), Err(DurationError::NegativeDuration(2, 5)));
    assert_eq!(Timestamp { seconds: -2, nanos: 5 }.to_unix_offset(), (true, 2, 5));
    assert_eq!(Timestamp { seconds: 3, nanos: 0 }.to_unix_offset(), (false, 3, 0));
}
