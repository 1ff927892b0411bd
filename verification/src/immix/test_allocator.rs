//! A policy with blocks small enough to fill in a test.

use crate::immix::policy::AllocationPolicy;
use vstd::prelude::*;

verus! {

/// Blocks of four lines of 64 bytes.
pub struct TestAllocator;

impl AllocationPolicy for TestAllocator {
    const BLOCK_SIZE_BYTES: usize = 256;

    const LINE_SIZE_BYTES: usize = 64;

    const LINES_PER_BLOCK: usize = Self::BLOCK_SIZE_BYTES / Self::LINE_SIZE_BYTES;

    proof fn sizes_divide() {
    }
}

impl TestAllocator {
    /// The sizes of the policy: 256 bytes to the block, 64 to the line,
    /// which makes 4 lines.
    pub proof fn sizes()
        ensures
            Self::BLOCK_SIZE_BYTES == 256,
            Self::LINE_SIZE_BYTES == 64,
            Self::LINES_PER_BLOCK == 4,
    {
    }
}

} // verus!
