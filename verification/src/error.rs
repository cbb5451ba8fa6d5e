//! Error type shared by all registry operations.

use vstd::prelude::*;

verus! {

/// Error raised by prefix and registry operations.
///
/// Payloads carry a human-readable description.  I/O and task failures can
/// only be produced by the caller-side plumbing that reads and writes files;
/// the in-memory operations of this crate raise `Parse` and `Validation`
/// errors themselves.
#[derive(Debug)]
pub enum PrefixError {
    /// An I/O operation failed.
    Io(String),
    /// Registry text could not be parsed or serialized.
    Parse(String),
    /// Data validation failed.
    Validation(String),
    /// A resource was not found.
    NotFound(String),
    /// Dispatching work to a background task failed.
    Task(String),
    /// A file path was invalid.
    InvalidPath(String),
}

impl PrefixError {
    /// Human-readable description of the error.
    pub fn message(&self) -> (r: &String)
        ensures
            r@ == self.message_spec(),
    {
        match self {
            PrefixError::Io(m) => m,
            PrefixError::Parse(m) => m,
            PrefixError::Validation(m) => m,
            PrefixError::NotFound(m) => m,
            PrefixError::Task(m) => m,
            PrefixError::InvalidPath(m) => m,
        }
    }

    /// The description carried by the error.
    pub open spec fn message_spec(&self) -> Seq<char> {
        match self {
            PrefixError::Io(m) => m@,
            PrefixError::Parse(m) => m@,
            PrefixError::Validation(m) => m@,
            PrefixError::NotFound(m) => m@,
            PrefixError::Task(m) => m@,
            PrefixError::InvalidPath(m) => m@,
        }
    }
}

} // verus!
