//! Task control block and task status.
use vstd::prelude::*;

use crate::process::TaskInfo;

verus! {

/// Saved execution context of a task: return address, stack pointer and
/// callee-saved registers. This layer never reads it; it is only handed to
/// and from the scheduler.
#[derive(Clone, Copy, Debug)]
pub struct TaskContext {
    /// Return address.
    pub ra: usize,
    /// Kernel stack pointer.
    pub sp: usize,
    /// Callee-saved registers s0..s11.
    pub s: [usize; 12],
}

/// The task control block (TCB) of a task.
#[derive(Clone, Copy)]
pub struct TaskControlBlock {
    /// The task context.
    pub task_cx: TaskContext,
    /// The accounting record. Its `time` holds the moment, in milliseconds
    /// since boot, at which the task was first scheduled.
    pub task_info: TaskInfo,
}

/// The status of a task.
#[derive(Clone, Copy, Debug, PartialEq, Eq, Structural)]
pub enum TaskStatus {
    /// Allocated, not yet schedulable.
    UnInit,
    /// Schedulable, not running.
    Ready,
    /// Currently executing.
    Running,
    /// Terminated; never runs again.
    Exited,
}

/// Code of a status in the user-visible accounting record.
pub open spec fn status_code(s: TaskStatus) -> u8 {
    match s {
        TaskStatus::UnInit => 0,
        TaskStatus::Ready => 1,
        TaskStatus::Running => 2,
        TaskStatus::Exited => 3,
    }
}

impl TaskStatus {
    /// Code of this status in the user-visible accounting record.
    pub fn code(&self) -> (r: u8)
        ensures
            r == status_code(*self),
    {
        match self {
            TaskStatus::UnInit => 0,
            TaskStatus::Ready => 1,
            TaskStatus::Running => 2,
            TaskStatus::Exited => 3,
        }
    }
}

} // verus!
