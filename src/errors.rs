//! The errors that building a model can report.
use vstd::prelude::*;

verus! {

/// What went wrong.
#[derive(Clone, Debug, PartialEq, Eq)]
pub enum ErrorKind {
    /// The model's format is not one that the library knows.
    UnknownModelFormat(String),
    /// An index does not fit in the index type: the index, and the number
    /// of bits that the type has.
    IndexTooSmall(u64, u8),
}

/// An error raised while building a model.
#[derive(Clone, Debug, PartialEq, Eq)]
pub struct Error {
    pub kind: ErrorKind,
}

impl Error {
    /// The error for an index that a type of `bits` bits cannot hold.
    pub open spec fn index_too_small(index: u64, bits: u8) -> Error {
        Error { kind: ErrorKind::IndexTooSmall(index, bits) }
    }

    /// Wraps an error kind.
    pub fn new(kind: ErrorKind) -> (r: Error)
        ensures
            r.kind == kind,
    {
        Error { kind }
    }

    /// What went wrong.
    pub fn kind(&self) -> (r: &ErrorKind)
        ensures
            *r == self.kind,
    {
        &self.kind
    }
}

} // verus!
