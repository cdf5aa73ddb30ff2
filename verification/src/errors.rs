use vstd::prelude::*;

verus! {

/// The failures a utility invocation can report.
///
/// All of them are recoverable at the boundary: the caller reports a
/// message and goes on accepting new invocations.
#[derive(Debug, Clone, PartialEq, Eq)]
pub enum UtilError {
    /// An input path does not exist.
    NotFound,
    /// The bytes of an input are not valid UTF-8.
    EncodingError,
    /// An option was not recognized, in a utility that rejects unknown
    /// options; carries the offending option as it was dispatched.
    InvalidOption(String),
    /// An option that needs a value was given none.
    MissingArgument,
    /// The value of a numeric option did not parse as a non-negative
    /// integer.
    InvalidNumber,
    /// A pipe-simulation line is malformed.
    SyntaxError,
}

} // verus!
