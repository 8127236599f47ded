//! The collections that choose their own representation.

pub mod frozen_map;
pub mod frozen_set;
