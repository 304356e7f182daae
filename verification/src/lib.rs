//! Inspect, validate and manage CPU microcode.

pub mod amd;
pub mod archive;
pub mod basics;
pub mod boot;
pub mod bytes;
pub mod catalog;
pub mod digest;
pub mod intel;
pub mod linux;
pub mod model;
pub mod number;
pub mod order;
pub mod policy;
pub mod text;
pub mod transaction;
pub mod windows;
