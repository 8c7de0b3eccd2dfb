//! The one kind of failure that the rooms know.

use vstd::prelude::*;

verus! {

/// A failure inside the rooms. There is one kind, with a message for whoever
/// reads the logs: nothing in it is meant to be taken apart.
#[derive(Debug)]
#[allow(clippy::enum_variant_names)]
pub enum Error {
    GeneralError(String),
}

impl Error {
    /// The failure that stands for a counter that has run out of numbers.
    pub fn counters_exhausted() -> (error: Error)
        ensures
            error matches Error::GeneralError(message) && message@
                == "a counter has run out of numbers"@,
    {
        Error::GeneralError("a counter has run out of numbers".to_owned())
    }

    /// The message of the failure.
    pub fn message(&self) -> (message: &String)
        ensures
            *self matches Error::GeneralError(text) && *message == text,
    {
        match self {
            Error::GeneralError(message) => message,
        }
    }
}

} // verus!
