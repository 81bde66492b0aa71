//! The kinds of failure of the collector's memory layer.

use vstd::prelude::*;

verus! {

/// Result type of the collector's operations.
pub type GcResult<T> = Result<T, GcError>;

/// Why an operation on the heap could not be carried out.
#[derive(Debug, Copy, Clone, PartialEq, Eq, Structural)]
pub enum GcError {
    /// No space could be found for the object; a collection cycle may free some.
    AllocationFailed,
    /// Regions of the kind asked for cannot grow any further.
    RegionExhausted,
    /// The size recorded in a header differs from the size asked for.
    InvalidCast,
    /// The address designates nothing the heap has handed out.
    PointerOutOfRange,
}

} // verus!
