use vstd::prelude::*;

verus! {

/// Longest object name, in bytes.
pub const NAME_MAX: usize = 8;

/// Number of thread priority levels; 0 is the highest priority.
pub const THREAD_PRIORITY_MAX: usize = 32;

/// Alignment of heap blocks, in bytes.
pub const ALIGN_SIZE: usize = 8;

} // verus!
