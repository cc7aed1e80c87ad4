//! Error kinds that can end a sampling run.

use vstd::prelude::*;

verus! {

/// Why a sampling run ended. None of these are retried: the first error
/// aborts the run and is handed back to the caller.
#[derive(Debug, Clone, Copy, PartialEq, Eq, Structural)]
pub enum Error {
    /// The energy source could not be read.
    SourceReadError,
    /// The energy source's contents were not a non-negative integer.
    SourceParseError,
    /// The wait until the next tick could not be represented.
    SchedulingError,
    /// The reporting hook returned an error.
    CallbackError,
}

} // verus!
