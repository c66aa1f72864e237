//! Tests of the functions that read the machine clock: checked against
//! chrono's own answers captured at test time.

use chrono::Datelike;
use cursor_usage::aggregate::aggregate;
use cursor_usage::billing::{billing_start_from_response, events_request_plan};
use cursor_usage::calendar::month_start_ms;
use cursor_usage::models::UsageEvent;

#[test]
fn fallback_anchors_at_current_local_month() {
    // Absent field: the resolved start must be midnight at the first of
    // the current local month, read as UTC wall-clock numbers.
    let now = chrono::Local::now();
    let r = billing_start_from_response(br#"{"unrelated":true}"#).unwrap();
    let expected = month_start_ms(now.year(), now.month() as u8);
    // Guard against a month rollover between the two clock reads.
    let after = chrono::Local::now();
    let expected_after = month_start_ms(after.year(), after.month() as u8);
    assert!(r == expected || r == expected_after);
}

#[test]
fn non_json_summary_is_rejected_whatever_the_clock_says() {
    assert!(billing_start_from_response(b"<html>").is_none());
}

#[test]
fn request_plan_spans_thirty_days_or_the_billing_period() {
    let before = chrono::Utc::now().timestamp_millis();
    let (now, body) = events_request_plan(0);
    let after = chrono::Utc::now().timestamp_millis();
    assert!(before <= now && now <= after);
    // billing start 0 is earlier than now - 30d, so it is the start bound.
    let expected = format!(
        r#"{{"teamId":0,"startDate":"0","endDate":"{}","page":1,"pageSize":1000}}"#,
        now
    );
    assert_eq!(body, expected);
    // A billing start in the future loses to the trailing thirty days.
    let (now2, body2) = events_request_plan(i64::MAX);
    let expected2 = format!(
        r#"{{"teamId":0,"startDate":"{}","endDate":"{}","page":1,"pageSize":1000}}"#,
        now2 - 2_592_000_000,
        now2
    );
    assert_eq!(body2, expected2);
}

#[test]
fn clocked_aggregate_matches_billing_window_exactly() {
    let past = 1_714_608_000_000i64; // 2024-05-02, long before any test run
    let events = vec![UsageEvent {
        timestamp: past.to_string(),
        model: Some("gpt".to_string()),
        token_usage: None,
    }];
    let r = aggregate(1_714_521_600_000, &events);
    assert_eq!(r.total_requests, 1);
    assert_eq!(r.line_items.len(), 1);
    assert_eq!(r.line_items[0].model_name, "gpt");
    assert_eq!(r.billing_period_start, "2024-05-01T00:00:00+00:00");
    assert_eq!(r.today.label, "Today");
    // The event is years in the past: no trailing window holds it.
    assert_eq!(r.last7_days.requests, 0);
    assert_eq!(r.last30_days.requests, 0);
}
