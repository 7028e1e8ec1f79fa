//! The error taxonomy shared by every decode path.

use vstd::prelude::*;

verus! {

/// The error type returned when deserialization fails.
#[derive(Debug)]
pub struct Error(ErrorKind);

/// The three terminal failure kinds of a decode call.
#[derive(PartialEq, Eq, Structural, Debug, Clone, Copy)]
pub enum ErrorKind {
    /// The buffer is shorter than a fixed, size-prefixed, or self-described
    /// boundary requires.
    IncorrectLength,
    /// A receipt status byte is outside the defined mapping.
    ReceiptStatusCodeOutOfRange,
    /// A text field does not hold valid text.
    StringParseError,
}

impl View for Error {
    type V = ErrorKind;

    closed spec fn view(&self) -> ErrorKind {
        self.0
    }
}

impl Error {
    pub fn new(errorkind: ErrorKind) -> (r: Self)
        ensures
            r@ == errorkind,
    {
        Self(errorkind)
    }

    pub fn kind(&self) -> (r: ErrorKind)
        ensures
            r == self@,
    {
        self.0
    }
}

} // verus!
