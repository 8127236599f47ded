//! Specialized read-only sets used as the representations of frozen sets.
//!
//! Each set is a specialized map whose values are the unit value.

pub mod common_set;
pub mod integer_range_set;
pub mod integer_set;
pub mod iterators;
pub mod left_slice_set;
pub mod length_set;
pub mod right_slice_set;
pub mod scanning_set;
pub mod set;
pub mod set_ops;
