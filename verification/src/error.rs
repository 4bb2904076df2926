//! Why received bytes were turned away before any arithmetic was attempted.

use vstd::prelude::*;

verus! {

/// A byte string that does not denote a scalar, a point or a proof.
#[derive(Clone, Copy, Debug, PartialEq, Eq, Structural)]
pub enum InvalidInputError {
    /// The byte string has the wrong length for what it should hold.
    Length,
    /// The bytes are not the compressed encoding of a curve point.
    Point,
    /// The bytes denote an integer at or above the group order.
    Scalar,
}

} // verus!
