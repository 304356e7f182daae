//! Errors of host discovery.

use vstd::prelude::*;

verus! {

#[derive(Debug)]
#[allow(inconsistent_fields)]
pub enum LinuxError {
    /// A file could not be read; the cause is given as text.
    Io { path: String, source: String },
    NotLinux(&'static str),
    Parse { what: &'static str, reason: String },
    NoCpus,
}

/// The contents of a [`LinuxError`].
#[verifier::ext_equal]
#[allow(inconsistent_fields)]
pub enum LinuxFault {
    Io { path: Seq<char>, source: Seq<char> },
    NotLinux(Seq<char>),
    Parse { what: Seq<char>, reason: Seq<char> },
    NoCpus,
}

impl View for LinuxError {
    type V = LinuxFault;

    open spec fn view(&self) -> LinuxFault {
        match *self {
            LinuxError::Io { path, source } => LinuxFault::Io { path: path@, source: source@ },
            LinuxError::NotLinux(what) => LinuxFault::NotLinux(what@),
            LinuxError::Parse { what, reason } => LinuxFault::Parse {
                what: what@,
                reason: reason@,
            },
            LinuxError::NoCpus => LinuxFault::NoCpus,
        }
    }
}

impl LinuxFault {
    pub open spec fn error_text(self) -> Seq<char> {
        match self {
            LinuxFault::Io { path, source } => path + ": "@ + source,
            LinuxFault::NotLinux(what) => "not running on Linux; "@ + what,
            LinuxFault::Parse { what, reason } => "failed to parse "@ + what + ": "@ + reason,
            LinuxFault::NoCpus => "no CPU information available"@,
        }
    }
}

impl LinuxError {
    pub fn to_string(&self) -> (r: String)
        ensures
            r@ == self@.error_text(),
    {
        match self {
            LinuxError::Io { path, source } => {
                let mut m = path.clone();
                m.append(": ");
                m.append(source.as_str());
                m
            },
            LinuxError::NotLinux(what) => {
                let mut m = "not running on Linux; ".to_owned();
                m.append(what);
                m
            },
            LinuxError::Parse { what, reason } => {
                let mut m = "failed to parse ".to_owned();
                m.append(what);
                m.append(": ");
                m.append(reason.as_str());
                m
            },
            LinuxError::NoCpus => "no CPU information available".to_owned(),
        }
    }
}

} // verus!
