//! The fatal failures of a conversion run.  All of them arise at the I/O
//! edges that surround the library: the parser and translator themselves
//! never fail.

use vstd::prelude::*;
use vstd::string::*;

verus! {

/// Why a run aborted.  Malformed history lines are not an error: the reader
/// drops them silently.
#[derive(Clone, Copy, Debug, PartialEq, Eq, Structural)]
pub enum HistoryError {
    /// The external history-listing invocation could not be started or
    /// exited with a failure status.
    SourceUnavailable,
    /// The captured output of the invocation is not valid text.
    DecodeError,
    /// The destination file could not be opened, or a write failed partway.
    OutputWriteError,
}

impl HistoryError {
    /// The human-readable description of the failure.
    pub open spec fn spec_message(self) -> Seq<char> {
        match self {
            HistoryError::SourceUnavailable => "history source unavailable"@,
            HistoryError::DecodeError => "history output is not valid text"@,
            HistoryError::OutputWriteError => "failed to write the output file"@,
        }
    }

    /// The human-readable description of the failure.
    pub fn message(&self) -> (r: String)
        ensures
            r@ == self.spec_message(),
    {
        match self {
            HistoryError::SourceUnavailable => String::from_str("history source unavailable"),
            HistoryError::DecodeError => String::from_str("history output is not valid text"),
            HistoryError::OutputWriteError => String::from_str("failed to write the output file"),
        }
    }
}

} // verus!
