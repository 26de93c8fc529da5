//! The allocator that is in place before the heap exists.

use vstd::prelude::*;

verus! {

/// An allocator without memory: every request fails.
pub struct Dummy;

impl Dummy {
    /// Fails, whatever is asked.
    pub fn allocate(&self, _size: usize, _align: usize) -> (block: Option<usize>)
        ensures
            block is None,
    {
        None
    }
}

} // verus!
