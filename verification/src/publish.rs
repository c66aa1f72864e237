//! The publish step of a refresh cycle: how one cycle's outcome replaces
//! the shared snapshot. The shell owns the lock and the network; this
//! module owns the decision of what readers see next.

use vstd::prelude::*;
use crate::models::UsageDisplayData;

verus! {

/// What one refresh cycle produced.
pub enum RefreshOutcome {
    /// Credential extraction failed (payload: the error description).
    TokenFailed(String),
    /// A remote fetch failed (payload: the error description).
    ApiFailed(String),
    /// A fresh snapshot was computed.
    Fetched(UsageDisplayData),
}

/// The one state visible to readers: the last published snapshot, or the
/// last error. A refresh replaces it wholesale; no partial state is ever
/// published.
pub struct Snapshot {
    pub last_data: Option<UsageDisplayData>,
    pub error: Option<String>,
}

impl Snapshot {
    /// The state before any cycle has run: nothing published, no error.
    pub fn empty() -> (r: Snapshot)
        ensures
            r.last_data is None,
            r.error is None,
    {
        Snapshot { last_data: Option::None, error: Option::None }
    }
}

/// Publishes one cycle's outcome. A credential failure clears the stale
/// snapshot and records the error; a fetch failure records the error but
/// keeps the last good snapshot; a success publishes the new snapshot and
/// clears any previous error.
pub fn apply_refresh(state: &mut Snapshot, outcome: RefreshOutcome)
    ensures
        match outcome {
            RefreshOutcome::TokenFailed(m) => final(state).last_data is None
                && (final(state).error matches Option::Some(e) && e@ == "Token error: "@ + m@),
            RefreshOutcome::ApiFailed(m) => final(state).last_data == old(state).last_data
                && (final(state).error matches Option::Some(e) && e@ == "API error: "@ + m@),
            RefreshOutcome::Fetched(d) => final(state).last_data == Option::Some(d)
                && final(state).error is None,
        },
{
    match outcome {
        RefreshOutcome::TokenFailed(m) => {
            let mut msg = String::from_str("Token error: ");
            msg.append(m.as_str());
            state.last_data = Option::None;
            state.error = Option::Some(msg);
        },
        RefreshOutcome::ApiFailed(m) => {
            let mut msg = String::from_str("API error: ");
            msg.append(m.as_str());
            state.error = Option::Some(msg);
        },
        RefreshOutcome::Fetched(d) => {
            state.last_data = Option::Some(d);
            state.error = Option::None;
        },
    }
}

} // verus!
