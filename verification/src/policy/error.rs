//! Errors of policy evaluation.

use vstd::prelude::*;

verus! {

#[derive(Debug)]
pub enum PolicyError {
    Invalid(String),
}

/// The contents of a [`PolicyError`].
#[verifier::ext_equal]
pub enum PolicyFault {
    Invalid(Seq<char>),
}

impl View for PolicyError {
    type V = PolicyFault;

    open spec fn view(&self) -> PolicyFault {
        match *self {
            PolicyError::Invalid(what) => PolicyFault::Invalid(what@),
        }
    }
}

impl PolicyFault {
    pub open spec fn error_text(self) -> Seq<char> {
        match self {
            PolicyFault::Invalid(what) => what,
        }
    }
}

impl PolicyError {
    pub fn to_string(&self) -> (r: String)
        ensures
            r@ == self@.error_text(),
    {
        match self {
            PolicyError::Invalid(what) => what.clone(),
        }
    }
}

} // verus!
