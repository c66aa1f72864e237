//! Billing-period anchor and the events request: resolve the period start
//! from the summary endpoint's reply, and frame the body sent to the
//! events endpoint.

use vstd::prelude::*;
use crate::aggregate::MS_PER_30_DAYS;
use crate::calendar;
use crate::clock;
use crate::codec;
use crate::numbers;

verus! {

/// The billing-period start an optional `startOfMonth` text resolves to:
/// an ordered chain of parse attempts — strict RFC 3339 first, then the
/// fractional-seconds-with-trailing-Z form — and, when the field is absent
/// or unparsable by either, midnight at the first day of the fallback
/// calendar month. The fallback never fails.
pub open spec fn resolved_billing_start(field: Option<Seq<char>>, y: int, m: int) -> int {
    match field {
        Option::Some(s) => match clock::rfc3339_millis(s) {
            Option::Some(v) => v as int,
            Option::None => match clock::formatted_millis(s, "%Y-%m-%dT%H:%M:%S%.fZ"@) {
                Option::Some(v) => v as int,
                Option::None => calendar::month_start_millis(y, m),
            },
        },
        Option::None => calendar::month_start_millis(y, m),
    }
}

/// Resolves the billing-period start from the optional `startOfMonth`
/// field, with the given calendar month as the fallback anchor.
pub fn resolve_billing_start_at(field: Option<&str>, year: i32, month: u8) -> (r: i64)
    requires
        1 <= month <= 12,
        calendar::year_in_range(year as int),
    ensures
        r == resolved_billing_start(
            match field {
                Option::Some(s) => Option::Some(s@),
                Option::None => Option::<Seq<char>>::None,
            },
            year as int,
            month as int,
        ),
{
    match field {
        Option::Some(s) => {
            if let Option::Some(v) = clock::parse_rfc3339_ms(s) {
                v
            } else if let Option::Some(v) = clock::parse_datetime_with(
                s,
                "%Y-%m-%dT%H:%M:%S%.fZ",
            ) {
                v
            } else {
                calendar::month_start_ms(year, month)
            }
        },
        Option::None => calendar::month_start_ms(year, month),
    }
}

/// The billing-period start read out of the summary endpoint's body, with
/// the given calendar month as fallback: `None` only when the body is not
/// JSON at all; an absent or unparsable `startOfMonth` field falls back
/// instead of failing.
pub fn billing_start_from_response_at(body: &[u8], year: i32, month: u8) -> (r: Option<i64>)
    requires
        1 <= month <= 12,
        calendar::year_in_range(year as int),
    ensures
        match codec::json_str_field_of(body@, "startOfMonth"@) {
            Option::None => r is None,
            Option::Some(field) => r matches Option::Some(v) && v == resolved_billing_start(
                field,
                year as int,
                month as int,
            ),
        },
{
    match codec::json_str_field(body, "startOfMonth") {
        Option::None => Option::None,
        Option::Some(Option::None) => Option::Some(
            resolve_billing_start_at(Option::None, year, month),
        ),
        Option::Some(Option::Some(s)) => Option::Some(
            resolve_billing_start_at(Option::Some(s.as_str()), year, month),
        ),
    }
}

/// As `billing_start_from_response_at`, anchored at the machine's current
/// local calendar month.
pub fn billing_start_from_response(body: &[u8]) -> (r: Option<i64>)
    ensures
        match codec::json_str_field_of(body@, "startOfMonth"@) {
            Option::None => r is None,
            Option::Some(field) => r matches Option::Some(v) && exists|y: int, m: int|
                1 <= m <= 12 && calendar::year_in_range(y) && v == resolved_billing_start(
                    field,
                    y,
                    m,
                ),
        },
{
    let (year, month) = clock::current_local_year_month();
    let r = billing_start_from_response_at(body, year, month);
    proof {
        match codec::json_str_field_of(body@, "startOfMonth"@) {
            Option::Some(field) => {
                let v = r->Some_0;
                assert(1 <= month as int <= 12 && calendar::year_in_range(year as int)
                    && v == resolved_billing_start(field, year as int, month as int));
            },
            Option::None => {},
        }
    }
    r
}

/// The instant the events fetch should start from: the earlier of the
/// billing-period start and thirty days before `now`.
pub fn fetch_start_ms(billing_start: i64, now: i64) -> (r: i64)
    requires
        now >= i64::MIN + MS_PER_30_DAYS,
    ensures
        r == if billing_start <= now - MS_PER_30_DAYS {
            billing_start as int
        } else {
            now - MS_PER_30_DAYS
        },
{
    let thirty_days_ago = now - MS_PER_30_DAYS;
    if billing_start <= thirty_days_ago {
        billing_start
    } else {
        thirty_days_ago
    }
}

/// The JSON body posted to the events endpoint: a fixed page (the first)
/// of up to 1000 events between two millisecond bounds, each encoded as a
/// decimal string. Only the first page is ever requested; a period with
/// more events under-reports, a known upstream limitation.
pub open spec fn events_request_chars(start_ms: int, end_ms: int) -> Seq<char> {
    "{\"teamId\":0,\"startDate\":\""@ + numbers::dec_string_i64(start_ms)
        + "\",\"endDate\":\""@ + numbers::dec_string_i64(end_ms)
        + "\",\"page\":1,\"pageSize\":1000}"@
}

/// Computes the fetch window against the machine clock and renders the
/// request body: the capture instant (clamped below at the epoch) and the
/// body asking for everything from the earlier of the billing start and
/// thirty days before it.
pub fn events_request_plan(billing_start: i64) -> (r: (i64, String))
    ensures
        r.0 >= 0,
        r.1@ == events_request_chars(
            if billing_start <= r.0 - MS_PER_30_DAYS {
                billing_start as int
            } else {
                r.0 - MS_PER_30_DAYS
            },
            r.0 as int,
        ),
{
    let now_raw = clock::now_utc_ms();
    let now = if now_raw < 0 {
        0
    } else {
        now_raw
    };
    let start = fetch_start_ms(billing_start, now);
    let body = events_request_body(start, now);
    (now, body)
}

/// Renders the events request body for the given fetch window.
pub fn events_request_body(start_ms: i64, end_ms: i64) -> (r: String)
    ensures
        r@ == events_request_chars(start_ms as int, end_ms as int),
{
    let mut s = String::from_str("{\"teamId\":0,\"startDate\":\"");
    let a = numbers::i64_to_string(start_ms);
    s.append(a.as_str());
    s.append("\",\"endDate\":\"");
    let b = numbers::i64_to_string(end_ms);
    s.append(b.as_str());
    s.append("\",\"page\":1,\"pageSize\":1000}");
    proof {
        assert(s@ =~= events_request_chars(start_ms as int, end_ms as int));
    }
    s
}

} // verus!
