//! What a compile-time frontend needs to pick a map for a literal payload.

pub mod frozen_map;
