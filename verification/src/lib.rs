//! Verified core of a usage-tracking companion for a cloud coding assistant.
//!
//! The library covers the two subsystems with real logic: recovering a
//! session credential from a locally stored token, and aggregating usage
//! events into per-model and per-window summaries. All I/O (the local
//! database, the HTTP calls, the desktop shell) lives outside, in `app/`.

pub mod aggregate;
pub mod billing;
pub mod calendar;
pub mod clock;
pub mod codec;
pub mod models;
pub mod numbers;
pub mod publish;
pub mod token;

