//! The control block of a task and what a task can learn about itself.

use vstd::prelude::*;

verus! {

/// The number of system calls that are counted per task.
pub const MAX_SYSCALL_NUM: usize = 500;

/// The status of a task in its life cycle.
#[derive(Clone, Copy, Debug, PartialEq, Eq, Structural)]
pub enum TaskStatus {
    /// Not initialized yet.
    UnInit,
    /// Ready to run.
    Ready,
    /// Running.
    Running,
    /// Exited.
    Exited,
}

/// The registers that are kept while a task does not run: the return address,
/// the stack pointer and the twelve callee-saved registers.
#[derive(Clone, Copy, Debug)]
pub struct TaskContext {
    pub ra: usize,
    pub sp: usize,
    pub s: [usize; 12],
}

impl TaskContext {
    /// A context with every register zero.
    pub fn zero_init() -> (context: Self)
        ensures
            context.ra == 0,
            context.sp == 0,
            forall|i: int| 0 <= i < 12 ==> context.s[i] == 0,
    {
        TaskContext { ra: 0, sp: 0, s: [0; 12] }
    }
}

/// The control block of a task.
#[derive(Clone, Copy)]
pub struct TaskControlBlock {
    /// The status of the task in its life cycle.
    pub task_status: TaskStatus,
    /// The saved registers of the task.
    pub task_cx: TaskContext,
    /// How often the task has made each system call.
    pub syscall_times: [u32; MAX_SYSCALL_NUM],
    /// The time at which the task first ran.
    pub start_time: usize,
}

impl Default for TaskControlBlock {
    /// The control block of a task that has not been initialized: no system
    /// call counted, no start time, a zero context.
    fn default() -> (block: Self)
        ensures
            block.task_status == TaskStatus::UnInit,
            block.start_time == 0,
            block.task_cx.ra == 0,
            block.task_cx.sp == 0,
            forall|i: int| 0 <= i < 12 ==> block.task_cx.s[i] == 0,
            forall|i: int| 0 <= i < MAX_SYSCALL_NUM ==> block.syscall_times[i] == 0,
    {
        TaskControlBlock {
            task_cx: TaskContext::zero_init(),
            task_status: TaskStatus::UnInit,
            syscall_times: [0; MAX_SYSCALL_NUM],
            start_time: 0,
        }
    }
}

} // verus!
