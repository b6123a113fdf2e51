//! The ways in which a cipher operation can reject its input.

use vstd::prelude::*;

verus! {

/// Why an operation of the cipher refused its input.
#[derive(Clone, Copy, Debug, PartialEq, Eq, Structural)]
pub enum CipherError {
    /// A character that is not one of the letters `A` to `Z` was met in a text.
    InvalidSymbol { symbol: char },
    /// A number outside `1..=26` was met where a letter position was expected.
    OutOfRange { value: usize },
    /// A key without any character was given.
    EmptyKey,
    /// Two sequences that must have the same length have `left` and `right`
    /// elements.
    LengthMismatch { left: usize, right: usize },
}

} // verus!
