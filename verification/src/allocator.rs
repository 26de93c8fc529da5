//! The allocation strategies and the address arithmetic they share.

pub mod align;
pub mod bump;
pub mod dummy;
pub mod fallback;
pub mod fixed_size_block;
