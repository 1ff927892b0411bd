//! How a run of the register machine ends.

use vstd::prelude::*;

verus! {

/// The outcome of interpreting a chunk.
#[derive(Debug, Clone, Copy, PartialEq, Eq)]
pub enum InterpretResult {
    /// The chunk ran to its `Ret`.
    Success,
    CompileErr,
    RuntimeErr,
}

} // verus!
