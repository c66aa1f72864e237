use cursor_usage::billing::{
    billing_start_from_response_at, events_request_body, fetch_start_ms, resolve_billing_start_at,
};
use cursor_usage::calendar::month_start_ms;
use cursor_usage::numbers::{i64_to_string, parse_timestamp_ms, u64_to_string};

#[test]
fn month_start_matches_known_instants() {
    assert_eq!(month_start_ms(1970, 1), 0);
    assert_eq!(month_start_ms(2024, 5), 1_714_521_600_000);
    assert_eq!(month_start_ms(1969, 12), -2_678_400_000);
    // Leap-year February boundary: March 2024 is 29 days after February 1.
    assert_eq!(month_start_ms(2024, 3) - month_start_ms(2024, 2), 29 * 86_400_000);
    assert_eq!(month_start_ms(2023, 3) - month_start_ms(2023, 2), 28 * 86_400_000);
}

#[test]
fn fallback_billing_start_is_month_start() {
    assert_eq!(resolve_billing_start_at(None, 2024, 5), 1_714_521_600_000);
    assert_eq!(resolve_billing_start_at(Some("not a date"), 2024, 5), 1_714_521_600_000);
}

#[test]
fn rfc3339_field_wins_over_fallback() {
    let r = resolve_billing_start_at(Some("2024-05-01T00:00:00Z"), 2030, 1);
    assert_eq!(r, 1_714_521_600_000);
}

#[test]
fn parse_chain_matches_tiered_attempts() {
    // For any input, the resolution must follow the documented chain:
    // strict RFC 3339 first, then the fractional pattern, then the
    // calendar fallback. Checked against chrono's own answers.
    for s in [
        "2024-05-01T00:00:00Z",
        "2024-05-01T12:30:00.250Z",
        "2024-5-1T3:4:5Z",
        "2024-05-01",
        "garbage",
    ] {
        let expected = chrono::DateTime::parse_from_rfc3339(s)
            .map(|d| d.timestamp_millis())
            .or_else(|_| {
                chrono::DateTime::parse_from_str(s, "%Y-%m-%dT%H:%M:%S%.fZ")
                    .map(|d| d.timestamp_millis())
            })
            .unwrap_or(1_714_521_600_000);
        assert_eq!(resolve_billing_start_at(Some(s), 2024, 5), expected, "input {s}");
    }
}

#[test]
fn response_field_is_read_defensively() {
    let body = br#"{"other":123,"startOfMonth":"2024-05-01T00:00:00Z","more":[1,2]}"#;
    assert_eq!(billing_start_from_response_at(body, 2030, 1), Some(1_714_521_600_000));
}

#[test]
fn response_without_field_falls_back() {
    assert_eq!(billing_start_from_response_at(br#"{"a":1}"#, 2024, 5), Some(1_714_521_600_000));
    // A non-string value at the key also falls back.
    assert_eq!(
        billing_start_from_response_at(br#"{"startOfMonth":5}"#, 2024, 5),
        Some(1_714_521_600_000)
    );
}

#[test]
fn non_json_response_yields_none() {
    assert_eq!(billing_start_from_response_at(b"not json", 2024, 5), None);
}

#[test]
fn request_body_is_exact() {
    assert_eq!(
        events_request_body(1_712_102_400_000, 1_714_694_400_000),
        r#"{"teamId":0,"startDate":"1712102400000","endDate":"1714694400000","page":1,"pageSize":1000}"#
    );
    assert_eq!(
        events_request_body(-5, 0),
        r#"{"teamId":0,"startDate":"-5","endDate":"0","page":1,"pageSize":1000}"#
    );
}

#[test]
fn fetch_start_takes_the_earlier_bound() {
    let now = 1_714_694_400_000;
    let thirty_ago = now - 2_592_000_000;
    assert_eq!(fetch_start_ms(thirty_ago - 1, now), thirty_ago - 1);
    assert_eq!(fetch_start_ms(thirty_ago + 1, now), thirty_ago);
    assert_eq!(fetch_start_ms(thirty_ago, now), thirty_ago);
}

#[test]
fn timestamp_parse_accepts_plain_decimal_only() {
    assert_eq!(parse_timestamp_ms("1714521600000"), 1_714_521_600_000);
    assert_eq!(parse_timestamp_ms("0"), 0);
    assert_eq!(parse_timestamp_ms("9223372036854775807"), i64::MAX);
    // Malformed or overflowing timestamps collapse to the epoch.
    assert_eq!(parse_timestamp_ms(""), 0);
    assert_eq!(parse_timestamp_ms("12a"), 0);
    assert_eq!(parse_timestamp_ms("-5"), 0);
    assert_eq!(parse_timestamp_ms("1.5e3"), 0);
    assert_eq!(parse_timestamp_ms("9223372036854775808"), 0);
    assert_eq!(parse_timestamp_ms("99999999999999999999999"), 0);
}

#[test]
fn decimal_rendering_round_trips() {
    assert_eq!(u64_to_string(0), "0");
    assert_eq!(u64_to_string(1000), "1000");
    assert_eq!(u64_to_string(u64::MAX), "18446744073709551615");
    assert_eq!(i64_to_string(-42), "-42");
    assert_eq!(i64_to_string(i64::MIN), "-9223372036854775808");
    assert_eq!(i64_to_string(7), "7");
}
