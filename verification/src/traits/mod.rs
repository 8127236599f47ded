//! The capabilities that keys, hashers and bucket descriptors offer to the
//! collections.

pub mod byte_hasher;
pub mod int_value;
pub mod key;
pub mod len;
pub mod slice_hash;
pub mod slot_index;
