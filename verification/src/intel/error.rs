//! Errors of the Intel parsers.

use vstd::prelude::*;
use crate::model::error::CoreError;
use crate::number::{dec, dec_text};

verus! {

#[derive(Debug)]
#[allow(inconsistent_fields)]
pub enum IntelError {
    Truncated { offset: usize, need: usize, have: usize },
    NotIntelFormat,
    Malformed { offset: u64, reason: String },
    LimitExceeded(&'static str),
    Core(CoreError),
    Dat { line: usize, reason: String },
}

/// The contents of an [`IntelError`].
#[verifier::ext_equal]
#[allow(inconsistent_fields)]
pub enum IntelFault {
    Truncated { offset: int, need: int, have: int },
    NotIntelFormat,
    Malformed { offset: int, reason: Seq<char> },
    LimitExceeded(Seq<char>),
    Core(Seq<char>),
    Dat { line: int, reason: Seq<char> },
}

impl View for IntelError {
    type V = IntelFault;

    open spec fn view(&self) -> IntelFault {
        match *self {
            IntelError::Truncated { offset, need, have } => IntelFault::Truncated {
                offset: offset as int,
                need: need as int,
                have: have as int,
            },
            IntelError::NotIntelFormat => IntelFault::NotIntelFormat,
            IntelError::Malformed { offset, reason } => IntelFault::Malformed {
                offset: offset as int,
                reason: reason@,
            },
            IntelError::LimitExceeded(what) => IntelFault::LimitExceeded(what@),
            IntelError::Core(e) => IntelFault::Core(e.error_text()),
            IntelError::Dat { line, reason } => IntelFault::Dat { line: line as int, reason: reason@ },
        }
    }
}

impl IntelFault {
    pub open spec fn error_text(self) -> Seq<char> {
        match self {
            IntelFault::Truncated { offset, need, have } => {
                "input too short at offset "@ + dec(offset as nat) + ": need "@ + dec(need as nat)
                    + " bytes, have "@ + dec(have as nat)
            },
            IntelFault::NotIntelFormat => "not an Intel microcode bundle"@,
            IntelFault::Malformed { offset, reason } => {
                "malformed microcode entry at offset "@ + dec(offset as nat) + ": "@ + reason
            },
            IntelFault::LimitExceeded(what) => "resource limit exceeded: "@ + what,
            IntelFault::Core(text) => text,
            IntelFault::Dat { line, reason } => {
                "malformed .dat input at line "@ + dec(line as nat) + ": "@ + reason
            },
        }
    }
}

impl From<CoreError> for IntelError {
    fn from(e: CoreError) -> (r: Self) {
        IntelError::Core(e)
    }
}

impl vstd::std_specs::convert::FromSpecImpl<CoreError> for IntelError {
    open spec fn obeys_from_spec() -> bool {
        true
    }

    open spec fn from_spec(e: CoreError) -> IntelError {
        IntelError::Core(e)
    }
}

impl IntelError {
    pub fn to_string(&self) -> (r: String)
        ensures
            r@ == self@.error_text(),
    {
        match self {
            IntelError::Truncated { offset, need, have } => {
                let mut m = "input too short at offset ".to_owned();
                m.append(dec_text(*offset as u64).as_str());
                m.append(": need ");
                m.append(dec_text(*need as u64).as_str());
                m.append(" bytes, have ");
                m.append(dec_text(*have as u64).as_str());
                m
            },
            IntelError::NotIntelFormat => "not an Intel microcode bundle".to_owned(),
            IntelError::Malformed { offset, reason } => {
                let mut m = "malformed microcode entry at offset ".to_owned();
                m.append(dec_text(*offset).as_str());
                m.append(": ");
                m.append(reason.as_str());
                m
            },
            IntelError::LimitExceeded(what) => {
                let mut m = "resource limit exceeded: ".to_owned();
                m.append(what);
                m
            },
            IntelError::Core(e) => e.to_string(),
            IntelError::Dat { line, reason } => {
                let mut m = "malformed .dat input at line ".to_owned();
                m.append(dec_text(*line as u64).as_str());
                m.append(": ");
                m.append(reason.as_str());
                m
            },
        }
    }
}

} // verus!
