//! Applying a plan.
//!
//! Every mutation is driven by a typed [`crate::policy::Plan`]. What is decided
//! here is carried out outside: which bytes go where, what is recorded of it,
//! and what is reported.

pub mod apply;
pub mod error;
pub mod journal;
pub mod law;
pub mod outcome;
pub mod preflight;

pub use apply::{begin, ApplyOptions, ApplyReport, ApplyResult, Transaction};
pub use error::TransactionError;
pub use journal::{Journal, JournalEntry};
pub use preflight::{preflight, PreflightReport};
