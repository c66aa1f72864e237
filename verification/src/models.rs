//! Data model shared by the credential extractor and the aggregation engine.
//!
//! Costs are carried as integer thousandths of a cent ("millicents"):
//! the remote service reports fractional cents, and a fixed sub-cent unit
//! keeps every sum exact. Timestamps are milliseconds since the Unix epoch.

use vstd::prelude::*;

verus! {

/// Token counts and cost attached to one usage event, as reported by the
/// remote service. Every field is optional; an absent field counts as 0.
pub struct TokenUsage {
    pub input_tokens: Option<u64>,
    pub output_tokens: Option<u64>,
    pub cache_write_tokens: Option<u64>,
    pub cache_read_tokens: Option<u64>,
    /// Cost of the event in millicents (thousandths of a cent).
    pub total_millicents: Option<u64>,
}

/// One billable action reported by the events endpoint.
pub struct UsageEvent {
    /// Milliseconds since the Unix epoch, encoded as a decimal string.
    pub timestamp: String,
    pub model: Option<String>,
    pub token_usage: Option<TokenUsage>,
}

/// Per-model aggregated usage within the current billing period.
pub struct LineItem {
    pub model_name: String,
    pub request_count: u64,
    pub cost_millicents: u64,
    pub total_tokens: u64,
}

/// Aggregated requests, spend and tokens over one reporting window.
pub struct PeriodSummary {
    pub label: String,
    pub requests: u64,
    pub spend_millicents: u64,
    pub tokens: u64,
}

/// The snapshot published after each refresh cycle.
pub struct UsageDisplayData {
    pub total_requests: u64,
    pub total_spend_millicents: u64,
    pub total_tokens: u64,
    pub line_items: Vec<LineItem>,
    /// Billing period start rendered as an RFC 3339 string.
    pub billing_period_start: String,
    pub today: PeriodSummary,
    pub last7_days: PeriodSummary,
    pub last30_days: PeriodSummary,
}

/// The value of an optional counter, with absence meaning 0.
pub open spec fn opt_or_zero(o: Option<u64>) -> int {
    match o {
        Option::Some(v) => v as int,
        Option::None => 0,
    }
}

/// Caps a mathematical sum at what a `u64` accumulator can hold.
pub open spec fn cap_u64(n: int) -> int {
    if n > u64::MAX as int {
        u64::MAX as int
    } else {
        n
    }
}

/// The four-field token sum, each absent field counting as 0.
pub open spec fn token_sum(
    input: Option<u64>,
    output: Option<u64>,
    cache_write: Option<u64>,
    cache_read: Option<u64>,
) -> int {
    opt_or_zero(input) + opt_or_zero(output) + opt_or_zero(cache_write) + opt_or_zero(cache_read)
}

impl TokenUsage {
    /// Mathematical token total of this record.
    pub open spec fn spec_total_tokens(self) -> int {
        token_sum(self.input_tokens, self.output_tokens, self.cache_write_tokens, self.cache_read_tokens)
    }

    /// Token total; saturates at `u64::MAX` instead of overflowing.
    pub fn total_tokens(&self) -> (r: u64)
        ensures
            r == cap_u64(self.spec_total_tokens()),
    {
        let a = self.input_tokens.unwrap_or(0);
        let b = self.output_tokens.unwrap_or(0);
        let c = self.cache_write_tokens.unwrap_or(0);
        let d = self.cache_read_tokens.unwrap_or(0);
        a.saturating_add(b).saturating_add(c).saturating_add(d)
    }
}

/// The field-order invariance of the token sum: swapping any two adjacent
/// arguments leaves it unchanged (so every ordering of the four fields gives
/// the same total), and a record with every field absent totals 0.
pub proof fn lemma_token_sum_field_order(
    a: Option<u64>,
    b: Option<u64>,
    c: Option<u64>,
    d: Option<u64>,
)
    ensures
        token_sum(a, b, c, d) == token_sum(b, a, c, d),
        token_sum(a, b, c, d) == token_sum(a, c, b, d),
        token_sum(a, b, c, d) == token_sum(a, b, d, c),
        token_sum(None, None, None, None) == 0,
{
}

impl UsageEvent {
    /// Cost of this event in millicents; absent usage or cost counts as 0.
    pub open spec fn spec_cost_millicents(self) -> int {
        match self.token_usage {
            Option::Some(t) => opt_or_zero(t.total_millicents),
            Option::None => 0,
        }
    }

    /// Token total of this event; absent usage counts as 0.
    pub open spec fn spec_tokens(self) -> int {
        match self.token_usage {
            Option::Some(t) => t.spec_total_tokens(),
            Option::None => 0,
        }
    }

    /// The model this event is attributed to: the reported name, or
    /// `"unknown"` when absent.
    pub open spec fn spec_model(self) -> Seq<char> {
        match self.model {
            Option::Some(m) => m@,
            Option::None => "unknown"@,
        }
    }

    /// Cost of the event in millicents, defaulting to 0.
    pub fn cost_millicents(&self) -> (r: u64)
        ensures
            r == self.spec_cost_millicents(),
    {
        match &self.token_usage {
            Option::Some(t) => t.total_millicents.unwrap_or(0),
            Option::None => 0,
        }
    }

    /// Token total of the event; saturates at `u64::MAX`.
    pub fn tokens(&self) -> (r: u64)
        ensures
            r == cap_u64(self.spec_tokens()),
    {
        match &self.token_usage {
            Option::Some(t) => t.total_tokens(),
            Option::None => 0,
        }
    }

    /// The model name used for per-model accumulation.
    pub fn model_name(&self) -> (r: String)
        ensures
            r@ == self.spec_model(),
    {
        match &self.model {
            Option::Some(m) => m.clone(),
            Option::None => String::from_str("unknown"),
        }
    }
}

} // verus!
