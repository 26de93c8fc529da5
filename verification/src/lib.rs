//! Heap allocation strategies for a freestanding kernel, as address
//! bookkeeping over a fixed region: a bump allocator, a fixed-size block
//! allocator with segregated free lists, and an always-failing stub.

pub mod allocator;
