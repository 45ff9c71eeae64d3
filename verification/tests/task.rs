use kernel_core::action::{Outcome, Step};
use kernel_core::process::{
    copy_to_user, sys_get_time, sys_sbrk, sys_task_info, sys_yield, TaskInfo,
};
use kernel_core::task::{TaskContext, TaskControlBlock, TaskStatus, MAX_SYSCALL_NUM};

#[test]
fn a_default_control_block_is_uninitialized_and_zero() {
    let block = TaskControlBlock::default();
    assert!(block.task_status == TaskStatus::UnInit);
    assert_eq!(block.start_time, 0);
    assert_eq!(block.task_cx.ra, 0);
    assert_eq!(block.task_cx.sp, 0);
    assert_eq!(block.task_cx.s, [0; 12]);
    assert_eq!(block.syscall_times.len(), MAX_SYSCALL_NUM);
    assert!(block.syscall_times.iter().all(|&n| n == 0));
    assert_eq!(MAX_SYSCALL_NUM, 500);
}

#[test]
fn a_zero_context_has_every_register_zero() {
    let context = TaskContext::zero_init();
    assert_eq!((context.ra, context.sp, context.s), (0, 0, [0; 12]));
}

#[test]
fn task_status_values_compare() {
    assert!(TaskStatus::Ready == TaskStatus::Ready);
    assert!(TaskStatus::Ready != TaskStatus::Running);
    assert!(TaskStatus::UnInit != TaskStatus::Exited);
    let info = TaskInfo { status: TaskStatus::Running, syscall_times: [0; 500], time: 3 };
    assert!(info.status == TaskStatus::Running);
    assert_eq!(info.time, 3);
}

#[test]
fn the_time_of_day_is_split_into_seconds_and_microseconds() {
    let time = sys_get_time(0);
    assert_eq!((time.sec, time.usec), (0, 0));
    let time = sys_get_time(1_234_567);
    assert_eq!((time.sec, time.usec), (1, 1_234_567));
    let time = sys_get_time(999_999);
    assert_eq!((time.sec, time.usec), (0, 999_999));
    let time = sys_get_time(10_001_000);
    assert_eq!((time.sec, time.usec), (10, 0));
    let time = sys_get_time(10_001_005);
    assert_eq!((time.sec, time.usec), (10, 5));
    let time = sys_get_time(25_000_000);
    assert_eq!((time.sec, time.usec), (25, 4_998_000));
}

#[test]
fn a_blank_task_record_is_running_with_nothing_counted() {
    let info = sys_task_info();
    assert!(info.status == TaskStatus::Running);
    assert_eq!(info.time, 0);
    assert_eq!(info.syscall_times.len(), 500);
    assert!(info.syscall_times.iter().all(|&n| n == 0));
}

#[test]
fn yield_gives_up_the_processor_and_wakes_nobody() {
    assert_eq!(sys_yield(), Outcome { step: Step::Yield, wake: None, timer: None });
}

#[test]
fn sbrk_reports_the_old_end_of_the_heap_or_failure() {
    assert_eq!(sys_sbrk(Some(0)), 0);
    assert_eq!(sys_sbrk(Some(0x8000_1000)), 0x8000_1000);
    assert_eq!(sys_sbrk(Some(isize::MAX as usize)), isize::MAX);
    assert_eq!(sys_sbrk(Some(isize::MAX as usize + 1)), -1);
    assert_eq!(sys_sbrk(Some(usize::MAX)), -1);
    assert_eq!(sys_sbrk(None), -1);
}

#[test]
fn copy_to_user_fills_the_buffers_one_after_the_other() {
    let src: Vec<u8> = (1..=10).collect();
    let mut dst = vec![vec![0u8; 3], vec![], vec![0u8; 5], vec![0u8; 2]];
    copy_to_user(&src, &mut dst);
    assert_eq!(dst, vec![vec![1, 2, 3], vec![], vec![4, 5, 6, 7, 8], vec![9, 10]]);
    // Buffers that hold less than the source get its first bytes.
    let mut dst = vec![vec![0u8; 2], vec![0u8; 2]];
    copy_to_user(&src, &mut dst);
    assert_eq!(dst, vec![vec![1, 2], vec![3, 4]]);
    let mut none: Vec<Vec<u8>> = vec![];
    copy_to_user(&src, &mut none);
    assert!(none.is_empty());
    let mut one = vec![vec![9u8; 1]];
    copy_to_user(&vec![7], &mut one);
    assert_eq!(one, vec![vec![7]]);
}
