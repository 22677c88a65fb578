use vstd::prelude::*;

verus! {

/// The ways an operation of the library can fail.
#[derive(Debug, Clone, Copy, PartialEq, Eq, Structural)]
pub enum Error {
    /// Textual input that does not follow the notation.
    InvalidNotation,
    /// A placement that breaks the stacking rule.
    IllegalMove,
    /// A coordinate pair outside the grid.
    OutOfBounds,
}

impl Error {
    /// A short human-readable description of the error.
    pub fn message(&self) -> (r: &'static str)
        ensures
            *self == Error::InvalidNotation ==> r@ == "Failed to parse notation"@,
            *self == Error::IllegalMove ==> r@ == "Illegal player move"@,
            *self == Error::OutOfBounds ==> r@ == "Index out of bounds"@,
    {
        match self {
            Error::InvalidNotation => "Failed to parse notation",
            Error::IllegalMove => "Illegal player move",
            Error::OutOfBounds => "Index out of bounds",
        }
    }
}

} // verus!
