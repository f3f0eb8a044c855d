//! The ways in which an operation of this library is refused.
use vstd::prelude::*;

verus! {

/// The dimensions of a matrix.
#[derive(Clone, Copy, Debug, PartialEq, Eq, Structural)]
pub struct Shape {
    pub width: usize,
    pub height: usize,
}

/// Why an operation did not go through. No operation goes on with operands
/// that do not fit: it returns one of these and changes nothing.
#[derive(Clone, Copy, Debug, PartialEq, Eq, Structural)]
pub enum Error {
    /// An operand has the shape `actual` where `expected` was called for.
    ShapeMismatch { expected: Shape, actual: Shape },
    /// An activation function handed back a matrix of another shape than
    /// the one it was given.
    ActivationShapeViolation,
}

} // verus!
