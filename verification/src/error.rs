//! The errors of the library.

use vstd::prelude::*;

verus! {

/// Why an operation of this library refused its input.
#[derive(Debug, Clone, Copy, PartialEq, Eq, Structural)]
pub enum RasterError {
    /// A point has a coordinate whose magnitude exceeds the largest one an outline can hold.
    CoordinateOverflow,
    /// The byte size of a bitmap does not fit the range an allocation may span.
    AllocationOverflow,
    /// The allocator could not provide the memory that was asked for.
    AllocationFailed,
    /// The segments of a shape contradict each other: one of them would have
    /// to be cut at a line that does not pass through its box. The shape is
    /// not to be drawn. Segments that come from flattening an outline never
    /// do: they are sound, and stay so however they are cut.
    InvariantViolation,
}

} // verus!
