//! A line-granular bump allocator in the Immix style, and the bytecode of the
//! small register machine that is its client.

pub mod bytecode;
pub mod immix;
pub mod vm;
