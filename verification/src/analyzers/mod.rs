//! The analyses of the keys that decide which representation a frozen
//! collection gets.

pub mod hash_code_analyzer;
pub mod int_key_analyzer;

pub mod slice_key_analyzer;
