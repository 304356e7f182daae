//! Errors of the AMD parsers and writers.

use vstd::prelude::*;
use crate::model::error::CoreError;
use crate::number::{dec, dec_text};

verus! {

#[derive(Debug)]
#[allow(inconsistent_fields)]
pub enum AmdError {
    NotAmdFormat,
    Truncated { offset: u64, need: usize, have: usize },
    Malformed { offset: u64, reason: String },
    LimitExceeded(&'static str),
    Core(CoreError),
}

/// The contents of an [`AmdError`].
#[verifier::ext_equal]
#[allow(inconsistent_fields)]
pub enum AmdFault {
    NotAmdFormat,
    Truncated { offset: int, need: int, have: int },
    Malformed { offset: int, reason: Seq<char> },
    LimitExceeded(Seq<char>),
    Core(Seq<char>),
}

impl View for AmdError {
    type V = AmdFault;

    open spec fn view(&self) -> AmdFault {
        match *self {
            AmdError::NotAmdFormat => AmdFault::NotAmdFormat,
            AmdError::Truncated { offset, need, have } => AmdFault::Truncated {
                offset: offset as int,
                need: need as int,
                have: have as int,
            },
            AmdError::Malformed { offset, reason } => AmdFault::Malformed {
                offset: offset as int,
                reason: reason@,
            },
            AmdError::LimitExceeded(what) => AmdFault::LimitExceeded(what@),
            AmdError::Core(e) => AmdFault::Core(e.error_text()),
        }
    }
}

impl AmdFault {
    pub open spec fn error_text(self) -> Seq<char> {
        match self {
            AmdFault::NotAmdFormat => "not an AMD microcode container (missing DMA\\0 magic)"@,
            AmdFault::Truncated { offset, need, have } => {
                "input truncated at offset "@ + dec(offset as nat) + ": need "@ + dec(need as nat)
                    + " bytes, have "@ + dec(have as nat)
            },
            AmdFault::Malformed { offset, reason } => {
                "malformed container at offset "@ + dec(offset as nat) + ": "@ + reason
            },
            AmdFault::LimitExceeded(what) => "resource limit exceeded: "@ + what,
            AmdFault::Core(text) => text,
        }
    }
}

impl From<CoreError> for AmdError {
    fn from(e: CoreError) -> (r: Self) {
        AmdError::Core(e)
    }
}

impl vstd::std_specs::convert::FromSpecImpl<CoreError> for AmdError {
    open spec fn obeys_from_spec() -> bool {
        true
    }

    open spec fn from_spec(e: CoreError) -> AmdError {
        AmdError::Core(e)
    }
}

impl AmdError {
    pub fn to_string(&self) -> (r: String)
        ensures
            r@ == self@.error_text(),
    {
        match self {
            AmdError::NotAmdFormat => "not an AMD microcode container (missing DMA\\0 magic)".to_owned(),
            AmdError::Truncated { offset, need, have } => {
                let mut m = "input truncated at offset ".to_owned();
                m.append(dec_text(*offset).as_str());
                m.append(": need ");
                m.append(dec_text(*need as u64).as_str());
                m.append(" bytes, have ");
                m.append(dec_text(*have as u64).as_str());
                m
            },
            AmdError::Malformed { offset, reason } => {
                let mut m = "malformed container at offset ".to_owned();
                m.append(dec_text(*offset).as_str());
                m.append(": ");
                m.append(reason.as_str());
                m
            },
            AmdError::LimitExceeded(what) => {
                let mut m = "resource limit exceeded: ".to_owned();
                m.append(what);
                m
            },
            AmdError::Core(e) => e.to_string(),
        }
    }
}

} // verus!
