//! Constants shared with the address-space translator and the task table.
use vstd::prelude::*;

verus! {

/// Size of a virtual-memory page, in bytes.
pub const PAGE_SIZE: usize = 0x1000;

/// Number of slots of the per-task system-call counter table.
pub const MAX_SYSCALL_NUM: usize = 500;

} // verus!
