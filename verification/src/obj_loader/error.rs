//! Why a mesh description is rejected.

use vstd::prelude::*;

verus! {

/// What is wrong with a line.
#[derive(Clone, Copy, Debug, PartialEq, Eq, Structural)]
pub enum ObjErrorKind {
    /// A `v` line with fewer than three coordinates, or a `vt` line with fewer
    /// than two.
    MissingCoordinate,
    /// A coordinate of a `v` line is no decimal literal.
    InvalidPositionCoordinate,
    /// The first coordinate of a `vt` line is no decimal literal.
    InvalidUCoordinate,
    /// The second coordinate of a `vt` line is no decimal literal.
    InvalidVCoordinate,
    /// A component of a face vertex is not a 32-bit decimal integer.
    InvalidFaceIndex,
    /// A face vertex has fewer than three components between its slashes.
    MissingFaceIndex,
    /// A face vertex names a position that no earlier `v` line gave.
    PositionOutOfRange,
    /// A face vertex names a texture coordinate that no earlier `vt` line gave.
    UvOutOfRange,
    /// The mesh has more distinct vertices than a 32-bit index can number.
    TooManyVertices,
}

/// The first line that is wrong, counted from zero, and what is wrong with it.
#[derive(Clone, Copy, Debug, PartialEq, Eq, Structural)]
pub struct ObjError {
    pub line: usize,
    pub kind: ObjErrorKind,
}

} // verus!
