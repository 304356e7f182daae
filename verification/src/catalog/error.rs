//! Errors of the catalog.

use vstd::prelude::*;
use crate::amd::error::{AmdError, AmdFault};
use crate::intel::error::{IntelError, IntelFault};

verus! {

#[derive(Debug)]
#[allow(inconsistent_fields)]
pub enum CatalogError {
    /// A file could not be read; the cause is given as text.
    Io { path: String, source: String },
    UnknownFormat { path: String },
    Intel { path: String, source: IntelError },
    Amd { path: String, source: AmdError },
    LimitExceeded(&'static str),
    Symlink { path: String },
    Sidecar(String),
}

/// The contents of a [`CatalogError`].
#[verifier::ext_equal]
#[allow(inconsistent_fields)]
pub enum CatalogFault {
    Io { path: Seq<char>, source: Seq<char> },
    UnknownFormat { path: Seq<char> },
    Intel { path: Seq<char>, source: IntelFault },
    Amd { path: Seq<char>, source: AmdFault },
    LimitExceeded(Seq<char>),
    Symlink { path: Seq<char> },
    Sidecar(Seq<char>),
}

impl View for CatalogError {
    type V = CatalogFault;

    open spec fn view(&self) -> CatalogFault {
        match *self {
            CatalogError::Io { path, source } => CatalogFault::Io { path: path@, source: source@ },
            CatalogError::UnknownFormat { path } => CatalogFault::UnknownFormat { path: path@ },
            CatalogError::Intel { path, source } => CatalogFault::Intel { path: path@, source: source@ },
            CatalogError::Amd { path, source } => CatalogFault::Amd { path: path@, source: source@ },
            CatalogError::LimitExceeded(what) => CatalogFault::LimitExceeded(what@),
            CatalogError::Symlink { path } => CatalogFault::Symlink { path: path@ },
            CatalogError::Sidecar(what) => CatalogFault::Sidecar(what@),
        }
    }
}

impl CatalogFault {
    pub open spec fn error_text(self) -> Seq<char> {
        match self {
            CatalogFault::Io { path, source } => path + ": "@ + source,
            CatalogFault::UnknownFormat { path } => path + ": unrecognised microcode format"@,
            CatalogFault::Intel { path, source } => path + ": "@ + source.error_text(),
            CatalogFault::Amd { path, source } => path + ": "@ + source.error_text(),
            CatalogFault::LimitExceeded(what) => "resource limit exceeded: "@ + what,
            CatalogFault::Symlink { path } => path + ": refusing to follow symlink"@,
            CatalogFault::Sidecar(what) => "sidecar metadata error: "@ + what,
        }
    }
}

fn joined(path: &str, separator: &str, rest: &str) -> (r: String)
    ensures
        r@ == path@ + separator@ + rest@,
{
    let mut m = path.to_owned();
    m.append(separator);
    m.append(rest);
    m
}

impl CatalogError {
    pub fn to_string(&self) -> (r: String)
        ensures
            r@ == self@.error_text(),
    {
        match self {
            CatalogError::Io { path, source } => joined(path.as_str(), ": ", source.as_str()),
            CatalogError::UnknownFormat { path } => {
                let mut m = path.clone();
                m.append(": unrecognised microcode format");
                m
            },
            CatalogError::Intel { path, source } => joined(
                path.as_str(),
                ": ",
                source.to_string().as_str(),
            ),
            CatalogError::Amd { path, source } => joined(
                path.as_str(),
                ": ",
                source.to_string().as_str(),
            ),
            CatalogError::LimitExceeded(what) => {
                let mut m = "resource limit exceeded: ".to_owned();
                m.append(what);
                m
            },
            CatalogError::Symlink { path } => {
                let mut m = path.clone();
                m.append(": refusing to follow symlink");
                m
            },
            CatalogError::Sidecar(what) => {
                let mut m = "sidecar metadata error: ".to_owned();
                m.append(what.as_str());
                m
            },
        }
    }
}

} // verus!
