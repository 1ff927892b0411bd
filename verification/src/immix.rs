//! Blocks of memory, the lines they are divided into, and allocation by
//! bumping a cursor through runs of unused lines.

pub mod blocklist;
pub mod bump_alloc;
pub mod immix;
pub mod linemap;
pub mod memory;
pub mod policy;
pub mod test_allocator;
