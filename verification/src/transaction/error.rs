//! Errors of applying a plan.

use vstd::prelude::*;
use crate::boot::error::{BootError, BootFault};
use crate::policy::error::{PolicyError, PolicyFault};

verus! {

#[derive(Debug)]
#[allow(inconsistent_fields)]
pub enum TransactionError {
    /// A file operation failed; the cause is given as text.
    Io { path: String, source: String },
    Preflight(String),
    Symlink { path: String },
    PathEscape { path: String },
    Boot(BootError),
    Policy(PolicyError),
    Other(String),
}

/// The contents of a [`TransactionError`].
#[verifier::ext_equal]
#[allow(inconsistent_fields)]
pub enum TransactionFault {
    Io { path: Seq<char>, source: Seq<char> },
    Preflight(Seq<char>),
    Symlink { path: Seq<char> },
    PathEscape { path: Seq<char> },
    Boot(BootFault),
    Policy(PolicyFault),
    Other(Seq<char>),
}

impl View for TransactionError {
    type V = TransactionFault;

    open spec fn view(&self) -> TransactionFault {
        match *self {
            TransactionError::Io { path, source } => TransactionFault::Io {
                path: path@,
                source: source@,
            },
            TransactionError::Preflight(what) => TransactionFault::Preflight(what@),
            TransactionError::Symlink { path } => TransactionFault::Symlink { path: path@ },
            TransactionError::PathEscape { path } => TransactionFault::PathEscape { path: path@ },
            TransactionError::Boot(e) => TransactionFault::Boot(e@),
            TransactionError::Policy(e) => TransactionFault::Policy(e@),
            TransactionError::Other(what) => TransactionFault::Other(what@),
        }
    }
}

impl TransactionFault {
    pub open spec fn error_text(self) -> Seq<char> {
        match self {
            TransactionFault::Io { path, source } => path + ": "@ + source,
            TransactionFault::Preflight(what) => "preflight failed: "@ + what,
            TransactionFault::Symlink { path } => "refusing to write through symlink: "@ + path,
            TransactionFault::PathEscape { path } => "path escapes confinement root: "@ + path,
            TransactionFault::Boot(e) => "boot build failed: "@ + e.error_text(),
            TransactionFault::Policy(e) => "policy error: "@ + e.error_text(),
            TransactionFault::Other(what) => what,
        }
    }
}

impl From<BootError> for TransactionError {
    fn from(e: BootError) -> (r: Self) {
        TransactionError::Boot(e)
    }
}

impl vstd::std_specs::convert::FromSpecImpl<BootError> for TransactionError {
    open spec fn obeys_from_spec() -> bool {
        true
    }

    open spec fn from_spec(e: BootError) -> TransactionError {
        TransactionError::Boot(e)
    }
}

impl From<PolicyError> for TransactionError {
    fn from(e: PolicyError) -> (r: Self) {
        TransactionError::Policy(e)
    }
}

impl vstd::std_specs::convert::FromSpecImpl<PolicyError> for TransactionError {
    open spec fn obeys_from_spec() -> bool {
        true
    }

    open spec fn from_spec(e: PolicyError) -> TransactionError {
        TransactionError::Policy(e)
    }
}

fn prefixed(prefix: &str, rest: &str) -> (r: String)
    ensures
        r@ == prefix@ + rest@,
{
    let mut m = prefix.to_owned();
    m.append(rest);
    m
}

impl TransactionError {
    pub fn to_string(&self) -> (r: String)
        ensures
            r@ == self@.error_text(),
    {
        match self {
            TransactionError::Io { path, source } => {
                let mut m = path.clone();
                m.append(": ");
                m.append(source.as_str());
                m
            },
            TransactionError::Preflight(what) => prefixed("preflight failed: ", what.as_str()),
            TransactionError::Symlink { path } => {
                prefixed("refusing to write through symlink: ", path.as_str())
            },
            TransactionError::PathEscape { path } => {
                prefixed("path escapes confinement root: ", path.as_str())
            },
            TransactionError::Boot(e) => prefixed("boot build failed: ", e.to_string().as_str()),
            TransactionError::Policy(e) => prefixed("policy error: ", e.to_string().as_str()),
            TransactionError::Other(what) => what.clone(),
        }
    }
}

} // verus!
