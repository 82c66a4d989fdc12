//! A keyed dense-storage container: values live in a contiguous vector for
//! fast iteration, while an index keyed by opaque 128-bit identifiers gives
//! constant-time lookup. Removal is by swap-compaction: the last value moves
//! into the vacated slot and the index is repaired.
mod fxmap;
pub mod laws;
mod rng;
pub mod table;

pub use crate::table::Table;
