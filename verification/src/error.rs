//! The ways in which a rotation can be refused.

use vstd::prelude::*;

verus! {

/// Why a vector operation did not produce a result.
#[derive(Clone, Copy, Debug, PartialEq, Eq, Structural)]
pub enum RotationError {
    /// The rotation axis has zero length, so it names no direction.
    InvalidAxis,
    /// A number lies outside the range for which the result is guaranteed
    /// to be free of clamping.
    InvalidInput,
}

} // verus!
