//! The error taxonomy of the reporting core: configuration errors from flag
//! validation, and the empty-dataset condition that distinguishes "nothing to
//! report" from a real failure. Resolution and output I/O failures happen
//! outside the library and are surfaced verbatim by the caller.

use vstd::prelude::*;
use crate::modes::ConfigError;

verus! {

/// An error the reporting core itself can signal.
#[derive(Clone, Copy, PartialEq, Eq, Structural, Debug)]
pub enum ReportError {
    /// Conflicting or invalid flag combination, detected before anything
    /// else runs.
    Config(ConfigError),
    /// There are no packages to report on: an empty package list where a
    /// percentage or an embedded dependency list was expected.
    EmptyDataset,
}

impl ReportError {
    /// The human-readable description of this error.
    pub open spec fn message_spec(self) -> Seq<char> {
        match self {
            ReportError::Config(e) => e.message_spec(),
            ReportError::EmptyDataset => "no licenses found: the package list is empty"@,
        }
    }

    /// Renders the description of this error.
    pub fn message(&self) -> (r: String)
        ensures
            r@ == self.message_spec(),
    {
        match self {
            ReportError::Config(e) => e.message(),
            ReportError::EmptyDataset => String::from_str(
                "no licenses found: the package list is empty",
            ),
        }
    }
}

} // verus!
