//! Process-management system calls of a small multitasking kernel: exit,
//! yield, clock and accounting queries, memory mapping and heap-break
//! adjustment, together with the scatter-copy writer that delivers kernel
//! results into a user address space backed by non-contiguous pages.
//!
//! The collaborators that lie outside this layer (clock, address translator,
//! memory-area manager, scheduler) are passed in explicitly: plain readings
//! as values, actions as closures whose results are passed through.

pub mod config;
pub mod bytes;
pub mod uaccess;
pub mod task;
pub mod process;
