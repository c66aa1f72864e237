//! Trusted bindings to the `chrono` crate: timestamp parsing and
//! rendering (deterministic, named results) and the process clock (whose
//! outcome only carries the bounds the crate documents).

use vstd::prelude::*;

verus! {

/// What RFC 3339 parsing yields on a character sequence: the instant in
/// milliseconds since the Unix epoch, or `None` when the text is not a
/// valid RFC 3339 date-time.
pub uninterp spec fn rfc3339_millis(s: Seq<char>) -> Option<i64>;

/// Relies on chrono's `DateTime::parse_from_rfc3339` and
/// `timestamp_millis`: parsing is a function of the characters alone.
#[verifier::external_body]
pub fn parse_rfc3339_ms(s: &str) -> (r: Option<i64>)
    ensures
        r == rfc3339_millis(s@),
{
    chrono::DateTime::parse_from_rfc3339(s).ok().map(|d| d.timestamp_millis())
}

/// What format-directed date-time parsing yields on a character sequence
/// and a format string: the instant in milliseconds since the Unix epoch,
/// or `None` when the text does not match the format.
pub uninterp spec fn formatted_millis(s: Seq<char>, fmt: Seq<char>) -> Option<i64>;

/// Relies on chrono's `DateTime::parse_from_str` and `timestamp_millis`:
/// parsing is a function of the text and the format alone.
#[verifier::external_body]
pub fn parse_datetime_with(s: &str, fmt: &str) -> (r: Option<i64>)
    ensures
        r == formatted_millis(s@, fmt@),
{
    chrono::DateTime::parse_from_str(s, fmt).ok().map(|d| d.timestamp_millis())
}

/// What rendering an epoch-milliseconds instant as RFC 3339 (UTC) yields;
/// an instant out of the date library's range renders as the epoch.
pub uninterp spec fn rfc3339_rendered(ms: i64) -> Seq<char>;

/// Relies on chrono's `DateTime::from_timestamp_millis` and `to_rfc3339`:
/// the rendering is a function of the instant alone; the few instants
/// beyond the library's date range fall back to rendering the epoch.
#[verifier::external_body]
pub fn format_rfc3339_ms(ms: i64) -> (r: String)
    ensures
        r@ == rfc3339_rendered(ms),
{
    chrono::DateTime::<chrono::Utc>::from_timestamp_millis(ms)
        .unwrap_or(chrono::DateTime::UNIX_EPOCH)
        .to_rfc3339()
}

/// Relies on chrono's `Utc::now` and `timestamp_millis`. The clock is not a
/// function of anything the library can see, so nothing is promised of the
/// value; callers treat every outcome.
#[verifier::external_body]
pub fn now_utc_ms() -> i64 {
    chrono::Utc::now().timestamp_millis()
}

/// Relies on chrono's `Local::now` with `Datelike::year` / `month`:
/// `month` is documented to start from 1, and every chrono date lies
/// within about 262,000 years of the common era.
#[verifier::external_body]
pub fn current_local_year_month() -> (r: (i32, u8))
    ensures
        1 <= r.1 <= 12,
        -300_000 <= r.0 <= 300_000,
{
    let now = chrono::Local::now();
    (chrono::Datelike::year(&now), chrono::Datelike::month(&now) as u8)
}

/// Relies on chrono's `Local::now`, `NaiveDate::and_hms_opt` and the local
/// time-zone conversion: local midnight of the current day, as milliseconds
/// since the Unix epoch. The result depends on the clock and the machine's
/// time zone, so nothing more is promised of it.
#[verifier::external_body]
pub fn local_day_start_ms() -> i64 {
    let today = chrono::Local::now().date_naive();
    match today.and_hms_opt(0, 0, 0).and_then(|t| t.and_local_timezone(chrono::Local).earliest())
    {
        Some(midnight) => chrono::DateTime::<chrono::Utc>::from(midnight).timestamp_millis(),
        None => chrono::Utc::now().timestamp_millis(),
    }
}

} // verus!
