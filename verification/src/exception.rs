//! The error values reported to callers of the library.

use vstd::prelude::*;

verus! {

/// An error reported synchronously by an operation of this library.
#[derive(Clone, Copy, Debug, PartialEq, Eq, Structural)]
pub enum Error {
    /// An index beyond the last step of a pattern was supplied.
    OutOfIndex,
    /// A pattern whose total required-event count is zero was registered.
    InvalidPattern,
}

impl Error {
    /// A short human-readable description of the error.
    pub fn message(&self) -> (r: &'static str)
        ensures
            *self == Error::OutOfIndex ==> r@ == "Provided index is greater than max index."@,
            *self == Error::InvalidPattern ==> r@ == "Key set should not be empty!"@,
    {
        match self {
            Error::OutOfIndex => "Provided index is greater than max index.",
            Error::InvalidPattern => "Key set should not be empty!",
        }
    }
}

} // verus!
