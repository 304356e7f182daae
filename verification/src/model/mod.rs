//! Vendor-neutral domain model for x86 CPU microcode.
//!
//! Vendor modules parse bytes and then project their result into the types
//! defined here. Nothing in this module reads a file or a processor.

pub mod cpu;
pub mod date;
pub mod error;
pub mod law;
pub mod limits;
pub mod patch;
pub mod select;
pub mod validate;
