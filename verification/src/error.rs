//! The errors of the scanner.

use vstd::prelude::*;

verus! {

/// Why an operation of the scanner was refused. A scan that finds no match
/// is no error.
#[derive(Debug, Clone, Copy, PartialEq, Eq, Structural)]
pub enum ScanError {
    /// The pattern handed to a scanning operation is not one the pattern
    /// matcher accepts.
    InvalidPattern,
    /// The offset handed to a repositioning lies beyond the end of the buffer
    /// or inside a character.
    InvalidPosition,
}

} // verus!
