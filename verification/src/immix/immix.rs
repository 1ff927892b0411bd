//! The collector that the allocator is meant for, as far as it is fixed: the
//! policies it is built from.

use crate::immix::policy::AllocationPolicy;
use crate::immix::policy::ReclamationPolicy;
use std::marker::PhantomData;
use vstd::prelude::*;

verus! {

/// Blocks of 32 KiB in lines of 128 bytes.
pub struct DefaultAllocation;

pub struct DefaultReclamation;

impl ReclamationPolicy for DefaultReclamation {

}

impl AllocationPolicy for DefaultAllocation {
    const BLOCK_SIZE_BYTES: usize = 32 * 1024;

    const LINE_SIZE_BYTES: usize = 128;

    const LINES_PER_BLOCK: usize = Self::BLOCK_SIZE_BYTES / Self::LINE_SIZE_BYTES;

    proof fn sizes_divide() {
    }
}

impl DefaultAllocation {
    /// The sizes of the policy: 32768 bytes to the block, 128 to the line,
    /// which makes 256 lines.
    pub proof fn sizes()
        ensures
            Self::BLOCK_SIZE_BYTES == 32768,
            Self::LINE_SIZE_BYTES == 128,
            Self::LINES_PER_BLOCK == 256,
    {
    }
}

/// A collector over blocks sized by `A` that wins memory back as `R` says.
pub struct ImmixGc<A: AllocationPolicy, R: ReclamationPolicy> {
    allocation_policy: PhantomData<A>,
    reclamation_policy: PhantomData<R>,
}

/// The collector with the default policies.
pub type StickyImmix = ImmixGc<DefaultAllocation, DefaultReclamation>;

} // verus!
