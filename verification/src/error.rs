//! Errors of the library.
use vstd::prelude::*;

verus! {

/// Why a bit stream could not be read or written.
#[derive(Debug, Clone, Copy, PartialEq, Eq, Structural)]
pub enum IoErrorKind {
    /// The input ended before the value did.
    UnexpectedEof,
    /// The value does not fit the bits it was to be written in.
    InvalidInput,
    /// Anything else.
    Other,
}

/// A failed access to a bit stream.
#[derive(Debug, Clone, Copy, PartialEq, Eq, Structural)]
pub struct IoError {
    kind: IoErrorKind,
}

impl IoError {
    pub closed spec fn spec_kind(self) -> IoErrorKind {
        self.kind
    }

    pub fn new(kind: IoErrorKind) -> (error: IoError)
        ensures
            error.spec_kind() == kind,
    {
        IoError { kind }
    }

    pub fn kind(&self) -> (kind: IoErrorKind)
        ensures
            kind == self.spec_kind(),
    {
        self.kind
    }
}

/// Why ancillary data could not be mapped from one format to the other.
#[derive(Debug, Clone, Copy, PartialEq, Eq)]
pub enum AncillaryMapError {
    /// The data breaks a rule of its format; the text says which.
    Invalid(&'static str),
    /// The bit stream could not be read or written.
    Io(IoError),
}

/// What an [`AncillaryMapError`] says.
pub enum MapFailure {
    Invalid(Seq<char>),
    Io(IoErrorKind),
}

impl View for AncillaryMapError {
    type V = MapFailure;

    open spec fn view(&self) -> MapFailure {
        match *self {
            AncillaryMapError::Invalid(text) => MapFailure::Invalid(text@),
            AncillaryMapError::Io(error) => MapFailure::Io(error.spec_kind()),
        }
    }
}

/// The flow cannot go on.
#[derive(Debug, Clone, Copy, PartialEq, Eq, Structural)]
pub enum FlowError {
    Error,
}

/// An error says the text or the kind that it was made with, so errors that differ in that differ.
pub proof fn error_says_what_it_holds(text: &'static str, error: IoError)
    ensures
        AncillaryMapError::Invalid(text)@ == MapFailure::Invalid(text@),
        AncillaryMapError::Io(error)@ == MapFailure::Io(error.spec_kind()),
{
}

} // verus!
