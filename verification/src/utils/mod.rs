//! Helpers shared by every layer.

pub mod assoc;
pub mod bytes;
pub mod endian;
