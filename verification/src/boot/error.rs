//! Errors of boot-artifact inspection.

use vstd::prelude::*;
use crate::archive::error::{ArchiveError, ArchiveFault};
use crate::catalog::error::{CatalogError, CatalogFault};

verus! {

#[derive(Debug)]
#[allow(inconsistent_fields)]
pub enum BootError {
    /// A file could not be read; the cause is given as text.
    Io { path: String, source: String },
    Archive(ArchiveError),
    Catalog(CatalogError),
    Malformed(String),
    LimitExceeded(&'static str),
    Pe(String),
}

/// The contents of a [`BootError`].
#[verifier::ext_equal]
#[allow(inconsistent_fields)]
pub enum BootFault {
    Io { path: Seq<char>, source: Seq<char> },
    Archive(ArchiveFault),
    Catalog(CatalogFault),
    Malformed(Seq<char>),
    LimitExceeded(Seq<char>),
    Pe(Seq<char>),
}

impl View for BootError {
    type V = BootFault;

    open spec fn view(&self) -> BootFault {
        match *self {
            BootError::Io { path, source } => BootFault::Io { path: path@, source: source@ },
            BootError::Archive(e) => BootFault::Archive(e@),
            BootError::Catalog(e) => BootFault::Catalog(e@),
            BootError::Malformed(what) => BootFault::Malformed(what@),
            BootError::LimitExceeded(what) => BootFault::LimitExceeded(what@),
            BootError::Pe(what) => BootFault::Pe(what@),
        }
    }
}

impl BootFault {
    pub open spec fn error_text(self) -> Seq<char> {
        match self {
            BootFault::Io { path, source } => path + ": "@ + source,
            BootFault::Archive(e) => "archive error: "@ + e.error_text(),
            BootFault::Catalog(e) => "catalog error: "@ + e.error_text(),
            BootFault::Malformed(what) => what,
            BootFault::LimitExceeded(what) => "resource limit exceeded: "@ + what,
            BootFault::Pe(what) => "PE/UKI parse error: "@ + what,
        }
    }
}

impl From<ArchiveError> for BootError {
    fn from(e: ArchiveError) -> (r: Self) {
        BootError::Archive(e)
    }
}

impl vstd::std_specs::convert::FromSpecImpl<ArchiveError> for BootError {
    open spec fn obeys_from_spec() -> bool {
        true
    }

    open spec fn from_spec(e: ArchiveError) -> BootError {
        BootError::Archive(e)
    }
}

impl From<CatalogError> for BootError {
    fn from(e: CatalogError) -> (r: Self) {
        BootError::Catalog(e)
    }
}

impl vstd::std_specs::convert::FromSpecImpl<CatalogError> for BootError {
    open spec fn obeys_from_spec() -> bool {
        true
    }

    open spec fn from_spec(e: CatalogError) -> BootError {
        BootError::Catalog(e)
    }
}

fn prefixed(prefix: &str, rest: &str) -> (r: String)
    ensures
        r@ == prefix@ + rest@,
{
    let mut m = prefix.to_owned();
    m.append(rest);
    m
}

impl BootError {
    pub fn to_string(&self) -> (r: String)
        ensures
            r@ == self@.error_text(),
    {
        match self {
            BootError::Io { path, source } => {
                let mut m = path.clone();
                m.append(": ");
                m.append(source.as_str());
                m
            },
            BootError::Archive(e) => prefixed("archive error: ", e.to_string().as_str()),
            BootError::Catalog(e) => prefixed("catalog error: ", e.to_string().as_str()),
            BootError::Malformed(what) => what.clone(),
            BootError::LimitExceeded(what) => prefixed("resource limit exceeded: ", what),
            BootError::Pe(what) => prefixed("PE/UKI parse error: ", what.as_str()),
        }
    }
}

} // verus!
