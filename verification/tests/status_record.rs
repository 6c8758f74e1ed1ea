use mdpreview::digits::{i64_string, u64_string};
use mdpreview::status::{parse_status, status_json};

#[test]
fn unsigned_formatting_exact() {
    assert_eq!(u64_string(0), "0");
    assert_eq!(u64_string(9), "9");
    assert_eq!(u64_string(10), "10");
    assert_eq!(u64_string(12345), "12345");
    assert_eq!(u64_string(u64::MAX), "18446744073709551615");
}

#[test]
fn signed_formatting_exact() {
    assert_eq!(i64_string(0), "0");
    assert_eq!(i64_string(-1), "-1");
    assert_eq!(i64_string(1700000000123), "1700000000123");
    assert_eq!(i64_string(i64::MAX), "9223372036854775807");
    assert_eq!(i64_string(i64::MIN), "-9223372036854775808");
}

#[test]
fn status_json_exact() {
    assert_eq!(status_json(0), "{\"timestamp\":0}");
    assert_eq!(status_json(1700000000123), "{\"timestamp\":1700000000123}");
    assert_eq!(status_json(-5), "{\"timestamp\":-5}");
}

#[test]
fn parse_inverts_serialization() {
    for t in [0i64, 1, -1, 42, -42, 1700000000123, i64::MAX, i64::MIN] {
        assert_eq!(parse_status(&status_json(t)), Some(t));
    }
}

#[test]
fn parse_accepts_the_record_with_json_whitespace() {
    assert_eq!(parse_status("{\"timestamp\":42}"), Some(42));
    assert_eq!(parse_status("{\"timestamp\":-7}"), Some(-7));
    assert_eq!(parse_status("{\"timestamp\": 42}"), Some(42));
    assert_eq!(parse_status(" {\"timestamp\":42} "), Some(42));
    assert_eq!(parse_status("\t{ \"timestamp\" :\n42 }\r\n"), Some(42));
    assert_eq!(parse_status("{\"timestamp\":42}  "), Some(42));
    assert_eq!(parse_status("{\"timestamp\":-0}"), Some(0));
}

#[test]
fn parse_rejects_malformed_records() {
    assert_eq!(parse_status(""), None);
    assert_eq!(parse_status("{}"), None);
    assert_eq!(parse_status("{\"timestamp\":}"), None);
    assert_eq!(parse_status("{\"timestamp\":-}"), None);
    assert_eq!(parse_status("{\"timestamp\":007}"), None);
    assert_eq!(parse_status("{\"timestamp\":4 2}"), None);
    assert_eq!(parse_status("{\"timestamp\":42"), None);
    assert_eq!(parse_status("{\"timestamp\":4a2}"), None);
    assert_eq!(parse_status("{\"timestamp\":4.2}"), None);
    assert_eq!(parse_status("{\"timestamp\":42,\"x\":1}"), None);
    assert_eq!(parse_status("{\"timestamp\" 42}"), None);
    assert_eq!(parse_status("x{\"timestamp\":42}"), None);
    assert_eq!(parse_status("{\"stamp\":42}"), None);
}

#[test]
fn poller_sees_nondecreasing_timestamps() {
    let clock_readings = [1000i64, 1000, 1200, 1700000000123];
    let mut last_seen = i64::MIN;
    for t in clock_readings {
        let record = status_json(t);
        let seen = parse_status(&record).expect("valid status");
        assert!(seen >= last_seen);
        last_seen = seen;
    }
}

#[test]
fn parse_rejects_out_of_range_timestamps() {
    assert_eq!(parse_status("{\"timestamp\":9223372036854775807}"), Some(i64::MAX));
    assert_eq!(parse_status("{\"timestamp\":9223372036854775808}"), None);
    assert_eq!(parse_status("{\"timestamp\":-9223372036854775808}"), Some(i64::MIN));
    assert_eq!(parse_status("{\"timestamp\":-9223372036854775809}"), None);
    assert_eq!(parse_status("{\"timestamp\":99999999999999999999999}"), None);
}
