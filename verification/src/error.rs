//! The error reported when a header cannot be decoded or encoded.

use vstd::prelude::*;

verus! {

/// What went wrong while decoding or encoding a header.
#[derive(Debug, Clone, Copy, PartialEq, Eq, Structural)]
pub enum ErrorKind {
    /// The raw bytes do not conform to the header's grammar.
    InvalidValue,
    /// A list that needs at least one element decoded to none.
    TooFewValues,
    /// More raw entries were present than the header is defined over.
    TooManyValues,
    /// Values that may be repeated only where they agree do not agree.
    InconsistentValues,
    /// A value cannot be written: its text would not read back as the value,
    /// or cannot stand in a header at all.
    Unencodable,
}

/// An error serializing or deserializing a header.
#[derive(Debug, Clone, Copy, PartialEq, Eq, Structural)]
pub struct Error(pub ErrorKind);

impl Error {
    /// The kind of this error.
    pub open spec fn kind(self) -> ErrorKind {
        self.0
    }

    /// The error of raw bytes that do not conform to the grammar.
    #[inline]
    pub fn invalid_value() -> (e: Error)
        ensures
            e == Error(ErrorKind::InvalidValue),
    {
        Error(ErrorKind::InvalidValue)
    }

    /// The error of a list that needs an item and has none.
    #[inline]
    pub fn too_few_values() -> (e: Error)
        ensures
            e == Error(ErrorKind::TooFewValues),
    {
        Error(ErrorKind::TooFewValues)
    }

    /// The error of more entries than a header is defined over.
    #[inline]
    pub fn too_many_values() -> (e: Error)
        ensures
            e == Error(ErrorKind::TooManyValues),
    {
        Error(ErrorKind::TooManyValues)
    }

    /// The error of repeated values that do not agree.
    #[inline]
    pub fn inconsistent_values() -> (e: Error)
        ensures
            e == Error(ErrorKind::InconsistentValues),
    {
        Error(ErrorKind::InconsistentValues)
    }

    /// The error of a value that cannot be written.
    #[inline]
    pub fn unencodable() -> (e: Error)
        ensures
            e == Error(ErrorKind::Unencodable),
    {
        Error(ErrorKind::Unencodable)
    }
}

} // verus!
