//! Specialized read-only maps used as the representations of frozen maps.
//!
//! Each map is built once from a vector of entries and answers lookups by the
//! strategy it is named after.

pub mod common_map;
pub mod debug;
pub mod equality;
pub mod hash_table;
pub mod integer_map;
pub mod integer_range_map;
pub mod iterators;
pub mod left_slice_map;
pub mod length_map;
pub mod many_mut;
pub mod map_ops;
pub mod right_slice_map;
pub mod scanning_map;
