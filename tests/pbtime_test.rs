use prost_wkt_types::datetime::DateTime;
use prost_wkt_types::text::{parse_duration, parse_timestamp};
use prost_wkt_types::time::{Duration, Timestamp};
use std::time::{SystemTime, UNIX_EPOCH};

fn timestamp_json(t: &Timestamp) -> String {
    format!("\"{}\"", t.to_string())
}

fn timestamp_from_json(json: &str) -> Option<Timestamp> {
    if json.len() < 2 || !json.starts_with('"') || !json.ends_with('"') {
        return None;
    }
    parse_timestamp(&json[1..json.len() - 1])
}

fn duration_json(d: &Duration) -> String {
    format!("\"{}\"", d.to_string())
}

fn duration_from_json(json: &str) -> Option<Duration> {
    if json.len() < 2 || !json.starts_with('"') || !json.ends_with('"') {
        return None;
    }
    parse_duration(&json[1..json.len() - 1])
}

fn timestamp_of(system_time: SystemTime) -> Timestamp {
    match system_time.duration_since(UNIX_EPOCH) {
        Ok(d) => Timestamp::from_unix_offset(false, d.as_secs(), d.subsec_nanos()),
        Err(e) => {
            let d = e.duration();
            Timestamp::from_unix_offset(true, d.as_secs(), d.subsec_nanos())
        }
    }
}

#[test]
fn check_timestamp_negative_seconds() {
    assert_eq!(
        timestamp_of(UNIX_EPOCH - std::time::Duration::new(1_001, 0)),
        Timestamp { seconds: -1_001, nanos: 0 }
    );
    assert_eq!(
        timestamp_of(UNIX_EPOCH - std::time::Duration::new(0, 999_999_900)),
        Timestamp { seconds: -1, nanos: 100 }
    );
    assert_eq!(
        timestamp_of(UNIX_EPOCH - std::time::Duration::new(2_001_234, 12_300)),
        Timestamp { seconds: -2_001_235, nanos: 999_987_700 }
    );
    assert_eq!(
        timestamp_of(UNIX_EPOCH - std::time::Duration::new(768, 65_432_100)),
        Timestamp { seconds: -769, nanos: 934_567_900 }
    );
}

#[test]
fn check_timestamp_negative_seconds_1ns() {
    assert_eq!(
        timestamp_of(UNIX_EPOCH - std::time::Duration::new(0, 999_999_999)),
        Timestamp { seconds: -1, nanos: 1 }
    );
    assert_eq!(
        timestamp_of(UNIX_EPOCH - std::time::Duration::new(1_234_567, 123)),
        Timestamp { seconds: -1_234_568, nanos: 999_999_877 }
    );
    assert_eq!(
        timestamp_of(UNIX_EPOCH - std::time::Duration::new(890, 987_654_321)),
        Timestamp { seconds: -891, nanos: 12_345_679 }
    );
}

#[test]
fn pbtime_timestamp_test() {
    let ts = Timestamp::new(10, 10);
    let date_time = ts.to_datetime();
    println!("{:?}", date_time);
}

#[test]
fn serialize_duration_check_output() {
    let duration = Duration { seconds: 10, nanos: 300 };
    let json = duration_json(&duration);
    assert_eq!(json, r#""10.000000300s""#);
}

#[test]
fn deserialize_duration_whole_seconds() {
    let got = duration_from_json(r#""10s""#).expect("json");
    let want = Duration { seconds: 10, nanos: 0 };
    assert_eq!(got, want);
}

#[test]
fn serialize_duration() {
    let duration = Duration { seconds: 10, nanos: 100 };
    let json = duration_json(&duration);
    println!("{json}");
    let back = duration_from_json(&json).expect("duration");
    assert_eq!(duration, back);
}

#[test]
fn invalid_timestamp_test() {
    let ts = Timestamp { seconds: 10, nanos: 2000000000 };
    let date_time = DateTime::from_timestamp(ts);
    println!("{date_time:?}");
}

#[test]
fn pbtime_test_test_timestamp_json_serialization() {
    let timestamp = Timestamp { seconds: 1609459200, nanos: 123456789 };
    let json = timestamp_json(&timestamp);
    assert_eq!(json, r#""2021-01-01T00:00:00.123456789Z""#);
}

#[test]
fn test_timestamp_json_deserialization() {
    let json = r#""2021-01-01T00:00:00.123456789Z""#;
    let timestamp = timestamp_from_json(json).unwrap();
    assert_eq!(timestamp.seconds, 1609459200);
    assert_eq!(timestamp.nanos, 123456789);
}

#[test]
fn test_timestamp_json_roundtrip() {
    let original = Timestamp { seconds: 1640995200, nanos: 500000000 };
    let json = timestamp_json(&original);
    let decoded = timestamp_from_json(&json).unwrap();
    assert_eq!(decoded, original);
}

#[test]
fn test_timestamp_zero_serialization() {
    let zero = Timestamp::default();
    let json = timestamp_json(&zero);
    assert_eq!(json, r#""1970-01-01T00:00:00Z""#);
    let decoded = timestamp_from_json(&json).unwrap();
    assert_eq!(decoded, zero);
}

#[test]
fn test_timestamp_negative_serialization() {
    let negative = Timestamp { seconds: -86400, nanos: 0 };
    let json = timestamp_json(&negative);
    let decoded = timestamp_from_json(&json).unwrap();
    assert_eq!(decoded, negative);
}

#[test]
fn test_duration_json_roundtrip() {
    let original = Duration { seconds: 7200, nanos: 250000000 };
    let json = duration_json(&original);
    let decoded = duration_from_json(&json).unwrap();
    assert_eq!(decoded, original);
}

#[test]
fn test_duration_negative_serialization() {
    let negative = Duration { seconds: -10, nanos: 0 };
    let json = duration_json(&negative);
    let decoded = duration_from_json(&json).unwrap();
    assert_eq!(decoded, negative);
}

#[test]
fn test_duration_large_values_serialization() {
    let large = Duration { seconds: 315576000000, nanos: 0 };
    let json = duration_json(&large);
    let decoded = duration_from_json(&json).unwrap();
    assert_eq!(decoded, large);
}

#[test]
fn test_timestamp_max_values_serialization() {
    let max_ts = Timestamp { seconds: 253402300799, nanos: 999999999 };
    let json = timestamp_json(&max_ts);
    let decoded = timestamp_from_json(&json).unwrap();
    assert_eq!(decoded, max_ts);
}

#[test]
fn test_duration_microseconds_precision() {
    let duration = Duration { seconds: 1, nanos: 123456000 };
    let json = duration_json(&duration);
    let decoded = duration_from_json(&json).unwrap();
    assert_eq!(decoded, duration);
    assert_eq!(decoded.nanos, 123456000);
}

#[test]
fn test_timestamp_precise_nanos() {
    let timestamp = Timestamp { seconds: 1234567890, nanos: 987654321 };
    let json = timestamp_json(&timestamp);
    let decoded = timestamp_from_json(&json).unwrap();
    assert_eq!(decoded, timestamp);
    assert_eq!(decoded.nanos, 987654321);
}

#[test]
fn test_duration_only_nanos() {
    let duration = Duration { seconds: 0, nanos: 123456789 };
    let json = duration_json(&duration);
    let decoded = duration_from_json(&json).unwrap();
    assert_eq!(decoded, duration);
    assert!(json.starts_with(r#""0."#));
    assert!(json.ends_with(r#"s""#));
}

#[test]
fn test_timestamp_far_future() {
    let far_future = Timestamp { seconds: 4102444800, nanos: 0 };
    let json = timestamp_json(&far_future);
    let decoded = timestamp_from_json(&json).unwrap();
    assert_eq!(decoded, far_future);
}

#[test]
fn test_timestamp_far_past() {
    let far_past = Timestamp { seconds: -2208988800, nanos: 0 };
    let json = timestamp_json(&far_past);
    let decoded = timestamp_from_json(&json).unwrap();
    assert_eq!(decoded, far_past);
}

#[test]
fn serde_json_tests_test_timestamp_json_serialization() {
    let timestamp = Timestamp { seconds: 1609459200, nanos: 123456789 };
    let json = timestamp_json(&timestamp);
    assert_eq!(json, r#""2021-01-01T00:00:00.123456789Z""#);
    let deserialized = timestamp_from_json(&json).unwrap();
    assert_eq!(deserialized, timestamp);
}

#[test]
fn test_timestamp_json_edge_cases() {
    let zero = Timestamp::default();
    let json = timestamp_json(&zero);
    assert_eq!(json, r#""1970-01-01T00:00:00Z""#);
    let deserialized = timestamp_from_json(&json).unwrap();
    assert_eq!(deserialized, zero);

    let max_ts = Timestamp { seconds: 253402300799, nanos: 999999999 };
    let json = timestamp_json(&max_ts);
    let deserialized = timestamp_from_json(&json).unwrap();
    assert_eq!(deserialized, max_ts);

    let negative = Timestamp { seconds: -1, nanos: 0 };
    let json = timestamp_json(&negative);
    let deserialized = timestamp_from_json(&json).unwrap();
    assert_eq!(deserialized, negative);
}

#[test]
fn test_invalid_timestamp_formats() {
    let invalid_timestamps = vec![
        "\"invalid-format\"",
        "\"2021-13-01T00:00:00Z\"",
        "\"2021-01-32T00:00:00Z\"",
        "\"2021-01-01T25:00:00Z\"",
        "\"2021-01-01T00:60:00Z\"",
        "\"not-a-timestamp\"",
        "123",
        "null",
    ];
    for invalid_ts in invalid_timestamps {
        let result = timestamp_from_json(invalid_ts);
        assert!(result.is_none(), "Expected error for invalid timestamp: {}", invalid_ts);
    }
}

#[test]
fn test_invalid_duration_formats() {
    let invalid_durations = vec!["\"invalid-format\"", "\"123\"", "\"s\"", "\"123h\"", "123", "null"];
    for invalid_dur in invalid_durations {
        let result = duration_from_json(invalid_dur);
        assert!(result.is_none(), "Expected error for invalid duration: {}", invalid_dur);
    }
}

#[test]
fn test_duration_json_deserialization() {
    let json = r#""3661.500000000s""#;
    let duration = duration_from_json(json).unwrap();
    assert_eq!(duration.seconds, 3661);
    assert_eq!(duration.nanos, 500000000);
}
