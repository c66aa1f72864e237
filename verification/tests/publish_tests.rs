use cursor_usage::aggregate::aggregate_at;
use cursor_usage::models::UsageEvent;
use cursor_usage::publish::{apply_refresh, RefreshOutcome, Snapshot};

fn sample_data() -> cursor_usage::models::UsageDisplayData {
    let events: Vec<UsageEvent> = vec![];
    aggregate_at(0, 1_714_694_400_000, 1_714_608_000_000, &events)
}

#[test]
fn empty_snapshot_has_nothing() {
    let s = Snapshot::empty();
    assert!(s.last_data.is_none());
    assert!(s.error.is_none());
}

#[test]
fn token_failure_clears_data_and_sets_error() {
    let mut s = Snapshot::empty();
    apply_refresh(&mut s, RefreshOutcome::Fetched(sample_data()));
    assert!(s.last_data.is_some());
    apply_refresh(&mut s, RefreshOutcome::TokenFailed("nope".to_string()));
    assert!(s.last_data.is_none());
    assert_eq!(s.error.as_deref(), Some("Token error: nope"));
}

#[test]
fn api_failure_keeps_last_data() {
    let mut s = Snapshot::empty();
    apply_refresh(&mut s, RefreshOutcome::Fetched(sample_data()));
    apply_refresh(&mut s, RefreshOutcome::ApiFailed("HTTP 500: boom".to_string()));
    assert!(s.last_data.is_some());
    assert_eq!(s.error.as_deref(), Some("API error: HTTP 500: boom"));
}

#[test]
fn success_publishes_and_clears_error() {
    let mut s = Snapshot::empty();
    apply_refresh(&mut s, RefreshOutcome::TokenFailed("nope".to_string()));
    assert!(s.error.is_some());
    apply_refresh(&mut s, RefreshOutcome::Fetched(sample_data()));
    assert!(s.last_data.is_some());
    assert!(s.error.is_none());
}
