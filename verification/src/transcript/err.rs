//! The ways loading a transcript can fail.

use vstd::prelude::*;

verus! {

/// A structural defect that makes a transcript unusable.
#[derive(Clone, Copy, Debug, PartialEq, Eq, Structural)]
pub enum FormatError {
    /// Nothing in the transcript was recognized as a timestamp, so no
    /// end time can be estimated for it.
    NoTimestampsFound,
    /// The transcript does not have the page setup code that ends the
    /// preamble.
    MalformedPreamble,
    /// The transcript does not close with the expected epilogue, so it
    /// is better left untouched.
    MalformedEpilogue,
}

/// A reason a transcript could not be loaded.
#[derive(Clone, Copy, Debug, PartialEq, Eq, Structural)]
pub enum Error {
    /// The transcript's structure is not the one this library handles.
    Format(FormatError),
}

impl Error {
    /// The transcript holds no timestamp anywhere.
    pub fn no_timestamps_found() -> (r: Error)
        ensures
            r == Error::Format(FormatError::NoTimestampsFound),
    {
        Error::Format(FormatError::NoTimestampsFound)
    }

    /// The preamble-ending marker is missing.
    pub fn malformed_preamble() -> (r: Error)
        ensures
            r == Error::Format(FormatError::MalformedPreamble),
    {
        Error::Format(FormatError::MalformedPreamble)
    }

    /// The closing epilogue is missing.
    pub fn malformed_epilogue() -> (r: Error)
        ensures
            r == Error::Format(FormatError::MalformedEpilogue),
    {
        Error::Format(FormatError::MalformedEpilogue)
    }
}

} // verus!
