//! Errors of the archive reader and writer.

use vstd::prelude::*;
use crate::number::{dec, dec_text};
use crate::text::{debug_string, debug_text};

verus! {

#[derive(Debug)]
#[allow(inconsistent_fields)]
pub enum ArchiveError {
    BadMagic { offset: u64 },
    Truncated { offset: u64, need: usize, have: usize },
    BadField { field: &'static str, offset: u64 },
    UnsafeName { name: String, reason: &'static str },
    LimitExceeded(&'static str),
    MissingTrailer,
    /// An input/output error, as text.
    Io(String),
}

/// The contents of an [`ArchiveError`].
#[verifier::ext_equal]
#[allow(inconsistent_fields)]
pub enum ArchiveFault {
    BadMagic { offset: int },
    Truncated { offset: int, need: int, have: int },
    BadField { field: Seq<char>, offset: int },
    UnsafeName { name: Seq<char>, reason: Seq<char> },
    LimitExceeded(Seq<char>),
    MissingTrailer,
    Io(Seq<char>),
}

impl View for ArchiveError {
    type V = ArchiveFault;

    open spec fn view(&self) -> ArchiveFault {
        match *self {
            ArchiveError::BadMagic { offset } => ArchiveFault::BadMagic { offset: offset as int },
            ArchiveError::Truncated { offset, need, have } => ArchiveFault::Truncated {
                offset: offset as int,
                need: need as int,
                have: have as int,
            },
            ArchiveError::BadField { field, offset } => ArchiveFault::BadField {
                field: field@,
                offset: offset as int,
            },
            ArchiveError::UnsafeName { name, reason } => ArchiveFault::UnsafeName {
                name: name@,
                reason: reason@,
            },
            ArchiveError::LimitExceeded(what) => ArchiveFault::LimitExceeded(what@),
            ArchiveError::MissingTrailer => ArchiveFault::MissingTrailer,
            ArchiveError::Io(text) => ArchiveFault::Io(text@),
        }
    }
}

impl ArchiveFault {
    pub open spec fn error_text(self) -> Seq<char> {
        match self {
            ArchiveFault::BadMagic { offset } => {
                "not a newc cpio archive at offset "@ + dec(offset as nat)
            },
            ArchiveFault::Truncated { offset, need, have } => {
                "truncated cpio archive at offset "@ + dec(offset as nat) + ": need "@ + dec(need as nat)
                    + " bytes, have "@ + dec(have as nat)
            },
            ArchiveFault::BadField { field, offset } => {
                "invalid cpio header field "@ + debug_text(field) + " at offset "@ + dec(offset as nat)
            },
            ArchiveFault::UnsafeName { name, reason } => {
                "unsafe cpio member name "@ + debug_text(name) + ": "@ + reason
            },
            ArchiveFault::LimitExceeded(what) => "resource limit exceeded: "@ + what,
            ArchiveFault::MissingTrailer => "archive is missing a TRAILER!!! record"@,
            ArchiveFault::Io(text) => text,
        }
    }
}

impl ArchiveError {
    pub fn to_string(&self) -> (r: String)
        ensures
            r@ == self@.error_text(),
    {
        match self {
            ArchiveError::BadMagic { offset } => {
                let mut m = "not a newc cpio archive at offset ".to_owned();
                m.append(dec_text(*offset).as_str());
                m
            },
            ArchiveError::Truncated { offset, need, have } => {
                let mut m = "truncated cpio archive at offset ".to_owned();
                m.append(dec_text(*offset).as_str());
                m.append(": need ");
                m.append(dec_text(*need as u64).as_str());
                m.append(" bytes, have ");
                m.append(dec_text(*have as u64).as_str());
                m
            },
            ArchiveError::BadField { field, offset } => {
                let mut m = "invalid cpio header field ".to_owned();
                m.append(debug_string(field).as_str());
                m.append(" at offset ");
                m.append(dec_text(*offset).as_str());
                m
            },
            ArchiveError::UnsafeName { name, reason } => {
                let mut m = "unsafe cpio member name ".to_owned();
                m.append(debug_string(name.as_str()).as_str());
                m.append(": ");
                m.append(reason);
                m
            },
            ArchiveError::LimitExceeded(what) => {
                let mut m = "resource limit exceeded: ".to_owned();
                m.append(what);
                m
            },
            ArchiveError::MissingTrailer => "archive is missing a TRAILER!!! record".to_owned(),
            ArchiveError::Io(text) => text.clone(),
        }
    }
}

} // verus!
