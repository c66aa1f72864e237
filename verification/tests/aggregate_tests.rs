use cursor_usage::aggregate::aggregate_at;
use cursor_usage::models::{TokenUsage, UsageEvent};

fn usage(cents_thousandths: u64, tokens: u64) -> TokenUsage {
    TokenUsage {
        input_tokens: Some(tokens),
        output_tokens: None,
        cache_write_tokens: None,
        cache_read_tokens: None,
        total_millicents: Some(cents_thousandths),
    }
}

fn event(ts: &str, model: Option<&str>, u: Option<TokenUsage>) -> UsageEvent {
    UsageEvent {
        timestamp: ts.to_string(),
        model: model.map(|m| m.to_string()),
        token_usage: u,
    }
}

const MAY_1: i64 = 1_714_521_600_000;
const MAY_2: i64 = 1_714_608_000_000;
const MAY_3: i64 = 1_714_694_400_000;
const APR_20: i64 = 1_713_571_200_000;

#[test]
fn end_to_end_billing_window() {
    // billingStart = 2024-05-01; one event inside the period, one before.
    let events = vec![
        event(&MAY_2.to_string(), Some("gpt"), Some(usage(500_000, 10))),
        event(&APR_20.to_string(), Some("gpt"), Some(usage(100_000, 5))),
    ];
    let now = MAY_3;
    let r = aggregate_at(MAY_1, now, MAY_2, &events);
    assert_eq!(r.total_requests, 1);
    assert_eq!(r.total_spend_millicents, 500_000); // $5.00
    assert_eq!(r.total_tokens, 10);
    assert_eq!(r.line_items.len(), 1);
    assert_eq!(r.line_items[0].model_name, "gpt");
    assert_eq!(r.line_items[0].request_count, 1);
    assert_eq!(r.line_items[0].cost_millicents, 500_000);
    assert_eq!(r.line_items[0].total_tokens, 10);
    // The April event still counts toward the trailing 30-day window
    // (now - 30d = 2024-04-03).
    assert_eq!(r.last30_days.requests, 2);
    assert_eq!(r.last30_days.spend_millicents, 600_000);
    assert_eq!(r.last30_days.tokens, 15);
    assert_eq!(r.last7_days.requests, 1);
    assert_eq!(r.today.requests, 1);
    assert_eq!(r.today.label, "Today");
    assert_eq!(r.last7_days.label, "Last 7 Days");
    assert_eq!(r.last30_days.label, "Last 30 Days");
    assert_eq!(r.billing_period_start, "2024-05-01T00:00:00+00:00");
}

#[test]
fn unparsable_timestamp_goes_to_epoch() {
    let events = vec![event("garbage", Some("gpt"), Some(usage(1_000, 1)))];
    // Modern billing start: the epoch event is in no window at all.
    let r = aggregate_at(MAY_1, MAY_3, MAY_2, &events);
    assert_eq!(r.total_requests, 0);
    assert_eq!(r.today.requests, 0);
    assert_eq!(r.last7_days.requests, 0);
    assert_eq!(r.last30_days.requests, 0);
    assert!(r.line_items.is_empty());
    // Billing start resolving to the epoch itself: the event is counted in
    // the billing totals, still in none of the trailing windows.
    let r2 = aggregate_at(0, MAY_3, MAY_2, &events);
    assert_eq!(r2.total_requests, 1);
    assert_eq!(r2.total_spend_millicents, 1_000);
    assert_eq!(r2.today.requests, 0);
    assert_eq!(r2.last7_days.requests, 0);
    assert_eq!(r2.last30_days.requests, 0);
}

#[test]
fn token_sum_defaults_and_field_order() {
    let none = TokenUsage {
        input_tokens: None,
        output_tokens: None,
        cache_write_tokens: None,
        cache_read_tokens: None,
        total_millicents: None,
    };
    assert_eq!(none.total_tokens(), 0);
    let a = TokenUsage {
        input_tokens: Some(1),
        output_tokens: Some(2),
        cache_write_tokens: Some(3),
        cache_read_tokens: Some(4),
        total_millicents: None,
    };
    let b = TokenUsage {
        input_tokens: Some(4),
        output_tokens: Some(3),
        cache_write_tokens: Some(2),
        cache_read_tokens: Some(1),
        total_millicents: None,
    };
    assert_eq!(a.total_tokens(), 10);
    assert_eq!(a.total_tokens(), b.total_tokens());
}

#[test]
fn per_model_sums_are_linear() {
    let events = vec![
        event(&MAY_2.to_string(), Some("gpt"), Some(usage(100, 1))),
        event(&MAY_2.to_string(), Some("gpt"), Some(usage(200, 2))),
        event(&MAY_2.to_string(), Some("gpt"), Some(usage(300, 3))),
    ];
    let r = aggregate_at(MAY_1, MAY_3, MAY_2, &events);
    assert_eq!(r.line_items.len(), 1);
    assert_eq!(r.line_items[0].request_count, 3);
    assert_eq!(r.line_items[0].cost_millicents, 100 + 200 + 300);
    assert_eq!(r.line_items[0].total_tokens, 1 + 2 + 3);
}

#[test]
fn line_items_sorted_by_cost_descending() {
    let events = vec![
        event(&MAY_2.to_string(), Some("small"), Some(usage(100, 1))),
        event(&MAY_2.to_string(), Some("big"), Some(usage(900, 1))),
        event(&MAY_2.to_string(), Some("mid"), Some(usage(500, 1))),
    ];
    let r = aggregate_at(MAY_1, MAY_3, MAY_2, &events);
    let names: Vec<&str> = r.line_items.iter().map(|i| i.model_name.as_str()).collect();
    assert_eq!(names, ["big", "mid", "small"]);
}

#[test]
fn equal_costs_keep_first_seen_order() {
    let events = vec![
        event(&MAY_2.to_string(), Some("first"), Some(usage(500, 1))),
        event(&MAY_2.to_string(), Some("second"), Some(usage(500, 1))),
        event(&MAY_2.to_string(), Some("third"), Some(usage(500, 1))),
    ];
    let r = aggregate_at(MAY_1, MAY_3, MAY_2, &events);
    let names: Vec<&str> = r.line_items.iter().map(|i| i.model_name.as_str()).collect();
    assert_eq!(names, ["first", "second", "third"]);
}

#[test]
fn repeated_runs_are_deterministic() {
    let events = vec![
        event(&MAY_2.to_string(), Some("a"), Some(usage(500, 1))),
        event(&MAY_2.to_string(), Some("b"), Some(usage(500, 2))),
        event(&MAY_2.to_string(), Some("c"), Some(usage(700, 3))),
        event(&APR_20.to_string(), Some("d"), Some(usage(900, 4))),
    ];
    let r1 = aggregate_at(MAY_1, MAY_3, MAY_2, &events);
    let r2 = aggregate_at(MAY_1, MAY_3, MAY_2, &events);
    assert_eq!(r1.line_items.len(), r2.line_items.len());
    for (x, y) in r1.line_items.iter().zip(r2.line_items.iter()) {
        assert_eq!(x.model_name, y.model_name);
        assert_eq!(x.request_count, y.request_count);
        assert_eq!(x.cost_millicents, y.cost_millicents);
        assert_eq!(x.total_tokens, y.total_tokens);
    }
}

#[test]
fn request_counts_sum_to_billing_window_count() {
    let events = vec![
        event(&MAY_2.to_string(), Some("a"), Some(usage(100, 1))),
        event(&MAY_2.to_string(), Some("b"), Some(usage(200, 1))),
        event(&MAY_2.to_string(), Some("a"), Some(usage(300, 1))),
        event(&APR_20.to_string(), Some("c"), Some(usage(400, 1))),
        event(&MAY_2.to_string(), None, None),
    ];
    let r = aggregate_at(MAY_1, MAY_3, MAY_2, &events);
    let in_window = events
        .iter()
        .filter(|e| e.timestamp.parse::<i64>().unwrap_or(0) >= MAY_1)
        .count() as u64;
    let total: u64 = r.line_items.iter().map(|i| i.request_count).sum();
    assert_eq!(total, in_window);
    assert_eq!(r.total_requests, in_window);
}

#[test]
fn absent_model_is_reported_unknown() {
    let events = vec![event(&MAY_2.to_string(), None, Some(usage(100, 1)))];
    let r = aggregate_at(MAY_1, MAY_3, MAY_2, &events);
    assert_eq!(r.line_items.len(), 1);
    assert_eq!(r.line_items[0].model_name, "unknown");
}

#[test]
fn empty_events_give_empty_summary() {
    let events: Vec<UsageEvent> = vec![];
    let r = aggregate_at(MAY_1, MAY_3, MAY_2, &events);
    assert_eq!(r.total_requests, 0);
    assert_eq!(r.total_spend_millicents, 0);
    assert_eq!(r.total_tokens, 0);
    assert!(r.line_items.is_empty());
    assert_eq!(r.today.requests, 0);
}

#[test]
fn model_outside_billing_window_has_no_line_item() {
    let events = vec![
        event(&APR_20.to_string(), Some("old-model"), Some(usage(900, 9))),
        event(&MAY_2.to_string(), Some("gpt"), Some(usage(100, 1))),
    ];
    let r = aggregate_at(MAY_1, MAY_3, MAY_2, &events);
    assert_eq!(r.line_items.len(), 1);
    assert_eq!(r.line_items[0].model_name, "gpt");
    // The out-of-window event still shows in the trailing 30-day lens.
    assert_eq!(r.last30_days.requests, 2);
}

#[test]
fn per_model_costs_ignore_out_of_window_events() {
    let events = vec![
        event(&APR_20.to_string(), Some("gpt"), Some(usage(900, 9))),
        event(&MAY_2.to_string(), Some("gpt"), Some(usage(100, 1))),
    ];
    let r = aggregate_at(MAY_1, MAY_3, MAY_2, &events);
    assert_eq!(r.line_items.len(), 1);
    assert_eq!(r.line_items[0].request_count, 1);
    assert_eq!(r.line_items[0].cost_millicents, 100);
    assert_eq!(r.line_items[0].total_tokens, 1);
}

#[test]
fn sums_saturate_instead_of_overflowing() {
    let events = vec![
        event(&MAY_2.to_string(), Some("m"), Some(usage(u64::MAX, u64::MAX))),
        event(&MAY_2.to_string(), Some("m"), Some(usage(1, 1))),
    ];
    let r = aggregate_at(MAY_1, MAY_3, MAY_2, &events);
    assert_eq!(r.total_spend_millicents, u64::MAX);
    assert_eq!(r.total_tokens, u64::MAX);
    assert_eq!(r.line_items[0].cost_millicents, u64::MAX);
}
