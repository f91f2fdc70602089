//! Errors of header parsing and of response writing.
use vstd::prelude::*;

verus! {

/// Why a header value could not be read.
#[derive(Clone, Copy, Debug, PartialEq, Eq, Structural)]
pub enum ParseError {
    /// The value has no content at all.
    MissingValue,
    /// A directive breaks the grammar: an empty segment, an empty value
    /// after `=`, a number that cannot be read, a required directive absent.
    MalformedDirective,
    /// An exclusive directive was given twice.
    ConflictingDirective,
    /// A single-valued header arrived on zero or several lines.
    WrongLineCount,
}

/// Why a response could not be written.
#[derive(Clone, Copy, Debug, PartialEq, Eq, Structural)]
pub enum WriteError {
    /// The byte sink failed.
    IoFailure,
    /// The operation is not allowed in the response's current state.
    InvalidStateTransition,
}

} // verus!
