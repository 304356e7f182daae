//! Errors of the vendor-neutral layer.

use vstd::prelude::*;
use crate::number::{dec, dec_text};

verus! {

pub type CoreResult<T> = Result<T, CoreError>;

#[derive(Debug, Clone, PartialEq, Eq)]
#[allow(inconsistent_fields)]
pub enum CoreError {
    Truncated { offset: usize, needed: usize, available: usize },
    OutOfRange { offset: usize, what: String },
    LimitExceeded { what: &'static str, value: u64, limit: u64 },
    UnknownFormat,
    Malformed(String),
}

impl CoreError {
    pub open spec fn error_text(&self) -> Seq<char> {
        match *self {
            CoreError::Truncated { offset, needed, available } => {
                "input truncated: needed "@ + dec(needed as nat) + " bytes at offset "@ + dec(
                    offset as nat,
                ) + ", only "@ + dec(available as nat) + " available"@
            },
            CoreError::OutOfRange { offset, what } => {
                "value out of range at offset "@ + dec(offset as nat) + ": "@ + what@
            },
            CoreError::LimitExceeded { what, value, limit } => {
                "resource limit exceeded: "@ + what@ + " ("@ + dec(value as nat) + " > "@ + dec(
                    limit as nat,
                ) + ")"@
            },
            CoreError::UnknownFormat => "unrecognised container format"@,
            CoreError::Malformed(what) => what@,
        }
    }

    pub fn to_string(&self) -> (r: String)
        ensures
            r@ == self.error_text(),
    {
        match self {
            CoreError::Truncated { offset, needed, available } => {
                let mut m = "input truncated: needed ".to_owned();
                m.append(dec_text(*needed as u64).as_str());
                m.append(" bytes at offset ");
                m.append(dec_text(*offset as u64).as_str());
                m.append(", only ");
                m.append(dec_text(*available as u64).as_str());
                m.append(" available");
                m
            },
            CoreError::OutOfRange { offset, what } => {
                let mut m = "value out of range at offset ".to_owned();
                m.append(dec_text(*offset as u64).as_str());
                m.append(": ");
                m.append(what.as_str());
                m
            },
            CoreError::LimitExceeded { what, value, limit } => {
                let mut m = "resource limit exceeded: ".to_owned();
                m.append(what);
                m.append(" (");
                m.append(dec_text(*value).as_str());
                m.append(" > ");
                m.append(dec_text(*limit).as_str());
                m.append(")");
                m
            },
            CoreError::UnknownFormat => "unrecognised container format".to_owned(),
            CoreError::Malformed(what) => what.clone(),
        }
    }
}

} // verus!
