//! The sizes that an allocator is built for.

use vstd::prelude::*;

verus! {

/// The block and line sizes of an allocator, fixed for its whole life.
///
/// A policy is a contract: whoever implements it shows, in `sizes_divide`,
/// that a block divides into a whole, positive number of lines and that
/// `LINES_PER_BLOCK` is that number.
pub trait AllocationPolicy {
    const BLOCK_SIZE_BYTES: usize;

    const LINE_SIZE_BYTES: usize;

    const LINES_PER_BLOCK: usize = Self::BLOCK_SIZE_BYTES / Self::LINE_SIZE_BYTES;

    /// The line size divides the block size, and the quotient, which is not
    /// zero, is the number of lines of a block.
    proof fn sizes_divide()
        ensures
            Self::LINE_SIZE_BYTES > 0,
            Self::BLOCK_SIZE_BYTES % Self::LINE_SIZE_BYTES == 0,
            Self::LINES_PER_BLOCK == Self::BLOCK_SIZE_BYTES / Self::LINE_SIZE_BYTES,
            Self::LINES_PER_BLOCK > 0,
    ;
}

/// How unused blocks are won back. Nothing is asked of a policy yet.
pub trait ReclamationPolicy {

}

} // verus!
