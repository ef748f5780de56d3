//! The crate-wide error type: every failure the run loop can surface,
//! with the local error of each component wrapped in its own variant.
use vstd::prelude::*;
use vstd::string::StringExecFns;

use crate::buffer::BufferError;
use crate::parameters::ParameterError;
use crate::ParserError;

verus! {

/// Result alias used throughout the crate.
pub type ReplResult<T> = Result<T, ReplError>;

/// Any failure surfaced to the run loop. Binding, command and buffer
/// errors are recoverable and rendered as one output line; editor and
/// I/O failures are fatal to the loop that meets them.
#[derive(Debug, PartialEq, Eq, Clone)]
pub enum ReplError {
    /// Unrecoverable line-editing failure.
    EditorError(String),
    /// Failure of the output sink, described in text.
    IoError(String),
    /// A parameter binding or conversion failure.
    ArgError(ParameterError),
    /// The input line resolved to no command.
    NoSuchCommandError(String),
    /// A rejected buffer edit.
    BufferError(BufferError),
    /// A failure while parsing the input line.
    ParserError(ParserError),
}

impl ReplError {
    /// The error's text.
    pub open spec fn spec_message(&self) -> Seq<char> {
        match self {
            ReplError::EditorError(s) => "Unrecoverable readline error: "@ + s@,
            ReplError::IoError(s) => "IO error: "@ + s@,
            ReplError::ArgError(e) => "Parameter error: "@ + e.spec_message(),
            ReplError::NoSuchCommandError(s) => "No such command: "@ + s@,
            ReplError::BufferError(e) => "Buffer error: "@ + e.spec_message(),
            ReplError::ParserError(e) => "Parser error: "@ + e.spec_message(),
        }
    }

    /// The error's text.
    pub fn message(&self) -> (r: String)
        ensures
            r@ == self.spec_message(),
    {
        match self {
            ReplError::EditorError(s) => String::from_str("Unrecoverable readline error: ").concat(
                s.as_str(),
            ),
            ReplError::IoError(s) => String::from_str("IO error: ").concat(s.as_str()),
            ReplError::ArgError(e) => String::from_str("Parameter error: ").concat(e.message()),
            ReplError::NoSuchCommandError(s) => String::from_str("No such command: ").concat(
                s.as_str(),
            ),
            ReplError::BufferError(e) => String::from_str("Buffer error: ").concat(e.message()),
            ReplError::ParserError(e) => String::from_str("Parser error: ").concat(e.message()),
        }
    }
}

} // verus!
