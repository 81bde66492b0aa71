//! Memory substrate of a region-based, colored-pointer garbage collector.
//!
//! The crate holds the pointer encoding, the object header, the size
//! classes with their regions, and the heap that ties them together. Every
//! function carries a contract that Verus proves.

pub mod errors;
pub mod barrier;
pub mod sizing;
pub mod region;
pub mod gc_head;
pub mod heap;
pub mod world;

pub use crate::errors::{GcError, GcResult};
pub use crate::barrier::{GcObject, GcPointer};
pub use crate::gc_head::{Gc, TheWorldControl};
pub use crate::region::Region;
pub use crate::sizing::{RegionKind, SizingPolicy};
pub use crate::world::TheWorld;
