//! Error values returned by the library.
//!
//! Three kinds of failure exist: a parse failure reported by the external
//! parser collaborator, a structure error raised when a tree violates an
//! invariant the caller relied on (for example strict rendering of an
//! unsupported node), and an operation error raised when a refactoring
//! operation's precondition does not hold (for example renaming a function
//! that does not exist). Errors are always returned as values.

use vstd::prelude::*;

verus! {

/// One failure value of the library.
#[derive(Debug, Clone, PartialEq, Eq)]
pub enum PyRustorError {
    /// The external parser rejected the source text.
    ParseFailure { message: String, line: usize, column: usize },
    /// A tree invariant was violated.
    StructureError { message: String },
    /// A refactoring operation's precondition did not hold.
    OperationError { message: String },
}

/// The result type used throughout the library.
pub type Result<T> = core::result::Result<T, PyRustorError>;

impl PyRustorError {
    /// Build a parse failure with a location.
    pub fn parse_error(message: String, line: usize, column: usize) -> (r: PyRustorError)
        ensures
            r == (PyRustorError::ParseFailure { message, line, column }),
    {
        PyRustorError::ParseFailure { message, line, column }
    }

    /// Build a structure error.
    pub fn ast_error(message: String) -> (r: PyRustorError)
        ensures
            r == (PyRustorError::StructureError { message }),
    {
        PyRustorError::StructureError { message }
    }

    /// Build an operation error.
    pub fn refactor_error(message: String) -> (r: PyRustorError)
        ensures
            r == (PyRustorError::OperationError { message }),
    {
        PyRustorError::OperationError { message }
    }

    /// The human-readable message carried by the error.
    pub fn message(&self) -> (r: &str)
        ensures
            r@ == self.message_view(),
    {
        match self {
            PyRustorError::ParseFailure { message, .. } => message.as_str(),
            PyRustorError::StructureError { message } => message.as_str(),
            PyRustorError::OperationError { message } => message.as_str(),
        }
    }

    /// The message of the error, as a sequence of characters.
    pub open spec fn message_view(self) -> Seq<char> {
        match self {
            PyRustorError::ParseFailure { message, .. } => message@,
            PyRustorError::StructureError { message } => message@,
            PyRustorError::OperationError { message } => message@,
        }
    }
}

} // verus!
