//! The system calls of a task about itself: its time, its record, its heap,
//! and giving up the processor.

use crate::action::{Outcome, Step};
use crate::error::FAILURE;
use crate::task::{TaskStatus, MAX_SYSCALL_NUM};
use vstd::prelude::*;

verus! {

/// A time in seconds and microseconds.
#[derive(Debug)]
pub struct TimeVal {
    pub sec: usize,
    pub usec: usize,
}

/// What a task is told about itself.
pub struct TaskInfo {
    /// The status of the task in its life cycle.
    pub status: TaskStatus,
    /// How often the task has made each system call.
    pub syscall_times: [u32; MAX_SYSCALL_NUM],
    /// The total running time of the task.
    pub time: usize,
}

/// The calling task gives up the processor. When it runs again the call is
/// complete, with 0.
pub fn sys_yield() -> (outcome: Outcome)
    ensures
        outcome == Outcome::pause(Step::Yield),
{
    Outcome::pausing(Step::Yield)
}

/// The time of day for a clock that stands at `time_us` microseconds: the
/// whole seconds, and the microseconds modulo 10_001_000.
pub fn sys_get_time(time_us: usize) -> (time: TimeVal)
    ensures
        time.sec == time_us / 1_000_000,
        time.usec == time_us % 10_001_000,
{
    TimeVal { sec: time_us / 1_000_000, usec: time_us % 10_001_000 }
}

/// The record of a running task before the task manager has entered what it
/// knows: no system call counted and no time run.
pub fn sys_task_info() -> (info: TaskInfo)
    ensures
        info.status == TaskStatus::Running,
        info.time == 0,
        forall|i: int| 0 <= i < MAX_SYSCALL_NUM ==> info.syscall_times[i] == 0,
{
    TaskInfo { status: TaskStatus::Running, syscall_times: [0; MAX_SYSCALL_NUM], time: 0 }
}

/// The code with which a change of the heap size is reported. `old_brk` is the
/// end of the heap before the change, or nothing where the change was refused:
/// the call returns that address, and -1 for a refusal and for an address that
/// a signed code cannot hold.
pub fn sys_sbrk(old_brk: Option<usize>) -> (code: isize)
    ensures
        code == (match old_brk {
            Some(address) if address <= isize::MAX => address as int,
            _ => -1,
        }),
{
    match old_brk {
        Some(address) => if address <= isize::MAX as usize {
            address as isize
        } else {
            FAILURE
        },
        None => FAILURE,
    }
}

/// The number of bytes that the first `n` buffers of `buffers` hold together.
pub open spec fn total_len(buffers: Seq<Vec<u8>>, n: int) -> int
    decreases n,
{
    if n <= 0 {
        0
    } else {
        total_len(buffers, n - 1) + buffers[n - 1].len()
    }
}

/// The lengths of the buffers before `n` are added up in `total_len` of any
/// later index.
proof fn lemma_total_len_grows(buffers: Seq<Vec<u8>>, i: int, n: int)
    requires
        0 <= i <= n <= buffers.len(),
    ensures
        total_len(buffers, i) <= total_len(buffers, n),
    decreases n - i,
{
    if i < n {
        lemma_total_len_grows(buffers, i, n - 1);
    }
}

/// Copies the bytes of `src` into the buffers of `dst`, one buffer after the
/// other: the first buffer gets the first bytes, the next buffer those that
/// follow. The buffers are the pieces into which the pages of a task cut a
/// range of its memory; they keep their lengths.
pub fn copy_to_user(src: &Vec<u8>, dst: &mut Vec<Vec<u8>>)
    requires
        total_len(old(dst)@, old(dst).len() as int) <= src.len(),
    ensures
        final(dst).len() == old(dst).len(),
        forall|i: int|
            0 <= i < final(dst).len() ==> (#[trigger] final(dst)[i]).len() == old(dst)[i].len(),
        forall|i: int, k: int|
            0 <= i < final(dst).len() && 0 <= k < final(dst)[i].len()
                ==> #[trigger] final(dst)[i][k] == src[total_len(old(dst)@, i) + k],
{
    let mut count: usize = 0;
    let mut i: usize = 0;
    while i < dst.len()
        invariant
            i <= dst.len(),
            dst.len() == old(dst).len(),
            forall|j: int| 0 <= j < dst.len() ==> (#[trigger] dst[j]).len() == old(dst)[j].len(),
            count == total_len(old(dst)@, i as int),
            total_len(old(dst)@, old(dst).len() as int) <= src.len(),
            forall|j: int, k: int|
                0 <= j < i && 0 <= k < dst[j].len() ==> #[trigger] dst[j][k] == src[total_len(
                    old(dst)@,
                    j,
                ) + k],
        decreases dst.len() - i,
    {
        let target_len = dst[i].len();
        proof {
            lemma_total_len_grows(old(dst)@, i as int + 1, old(dst).len() as int);
        }
        let ghost before = dst@;
        let mut k: usize = 0;
        while k < target_len
            invariant
                k <= target_len,
                i < dst.len(),
                dst.len() == before.len(),
                target_len == before[i as int].len(),
                count + target_len <= src.len(),
                forall|j: int| 0 <= j < dst.len() ==> (#[trigger] dst[j]).len() == before[j].len(),
                forall|j: int| 0 <= j < dst.len() && j != i ==> #[trigger] dst[j] == before[j],
                forall|n: int| 0 <= n < k ==> (#[trigger] dst[i as int][n]) == src[count + n],
            decreases target_len - k,
        {
            dst[i][k] = src[count + k];
            k += 1;
        }
        count += target_len;
        i += 1;
    }
}

} // verus!
