//! Pure, deterministic decision engine.
//!
//! Policy never touches the filesystem. It takes already-discovered system
//! state, catalogs and boot-artifact metadata and returns an explained plan.
//! Mutation is the exclusive responsibility of the transaction layer.

pub mod error;
pub mod law;
pub mod outcome;
pub mod plan;
pub mod state;

pub use error::PolicyError;
pub use plan::{evaluate, Action, Plan, PlanInput, PlannedWrite};
pub use state::SystemStatus;
