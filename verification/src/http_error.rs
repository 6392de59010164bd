//! The compactor and ingester services expose no real HTTP surface; every
//! request is answered with a single "not found" error.

use vstd::prelude::*;
use vstd::string::StringExecFns;

verus! {

/// The one HTTP error the services ever produce.
#[derive(Clone, Copy, Debug, PartialEq, Eq, Structural)]
pub enum IoxHttpError {
    NotFound,
}

impl IoxHttpError {
    /// The HTTP status code of the error.
    pub fn status_code(&self) -> (r: u16)
        ensures
            r == 404,
    {
        match self {
            IoxHttpError::NotFound => 404,
        }
    }

    /// The human-readable text of the error.
    pub fn message(&self) -> (r: String)
        ensures
            r@ == "NotFound"@,
    {
        match self {
            IoxHttpError::NotFound => String::from_str("NotFound"),
        }
    }
}

} // verus!
