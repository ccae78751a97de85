//! The failures that the library reports.

use vstd::prelude::*;
use vstd::string::StringExecFns;

verus! {

/// Why an operation was refused.
#[derive(Clone, Copy, Debug, PartialEq, Eq, Structural)]
pub enum Error {
    /// A node was added under an identifier that is already live.
    AlreadyExists,
    /// A change names a node, parent or child that the store does not hold.
    NotFound,
    /// The bytes are not a valid encoding, or a change cannot be meant for
    /// any store (a reserved identifier, a position past the end).
    InvalidData,
    /// The input ended in the middle of a value.
    UnexpectedEof,
    /// An append was fenced off: the log is not at the revision the writer
    /// expected.
    Conflict,
}

impl Error {
    /// The text that stands for this error where a peer is told about it.
    pub open spec fn spec_message(self) -> Seq<char> {
        match self {
            Error::AlreadyExists => "entity already exists"@,
            Error::NotFound => "entity not found"@,
            Error::InvalidData => "invalid data"@,
            Error::UnexpectedEof => "unexpected end of input"@,
            Error::Conflict => "revision conflict"@,
        }
    }

    /// Renders the error as text.
    pub fn message(&self) -> (text: String)
        ensures
            text@ == self.spec_message(),
    {
        match self {
            Error::AlreadyExists => String::from_str("entity already exists"),
            Error::NotFound => String::from_str("entity not found"),
            Error::InvalidData => String::from_str("invalid data"),
            Error::UnexpectedEof => String::from_str("unexpected end of input"),
            Error::Conflict => String::from_str("revision conflict"),
        }
    }
}

} // verus!
