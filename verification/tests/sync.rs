use kernel_core::action::{Outcome, Step};
use kernel_core::detector::Verdict;
use kernel_core::error::{Error, DEADLOCK, FAILURE, SUCCESS};
use kernel_core::primitive::Mutex;
use kernel_core::resource::ResourceTable;
use kernel_core::safety::{detect, test_mutex_dead_lock, test_sem_dead_lock, ResourceKind};
use kernel_core::syscall::{
    condvar_wait_resume, current_task_id, mutex_lock_resume, semaphore_down_resume,
    sys_condvar_create, sys_condvar_signal, sys_condvar_wait, sys_enable_deadlock_detect,
    sys_mutex_create, sys_mutex_lock, sys_mutex_unlock, sys_semaphore_create, sys_semaphore_down,
    sys_semaphore_up, sys_sleep,
};

const A: usize = 0x1000;
const B: usize = 0x2000;
const C: usize = 0x3000;

fn done(code: isize) -> Outcome {
    Outcome { step: Step::Return(code), wake: None, timer: None }
}

fn woke(task: usize) -> Outcome {
    Outcome { step: Step::Return(0), wake: Some(task), timer: None }
}

fn blocked() -> Outcome {
    Outcome { step: Step::Block, wake: None, timer: None }
}

fn yielded() -> Outcome {
    Outcome { step: Step::Yield, wake: None, timer: None }
}

fn table_of(tasks: &[usize]) -> ResourceTable {
    let mut table = ResourceTable::new();
    for (i, task) in tasks.iter().enumerate() {
        assert_eq!(table.add_task(*task), i);
    }
    table
}

fn locked(table: &ResourceTable, id: usize) -> bool {
    table.mutex_list()[id].as_ref().unwrap().locked()
}

fn mutex_waiters(table: &ResourceTable, id: usize) -> Vec<usize> {
    match table.mutex_list()[id].as_ref().unwrap() {
        Mutex::Spin(_) => vec![],
        Mutex::Blocking(m) => m.wait_queue.iter().copied().collect(),
    }
}

fn semaphore_waiters(table: &ResourceTable, id: usize) -> Vec<usize> {
    table.semaphore_list()[id].as_ref().unwrap().wait_queue.iter().copied().collect()
}

fn condvar_waiters(table: &ResourceTable, id: usize) -> Vec<usize> {
    table.condvar_list()[id].as_ref().unwrap().wait_queue.iter().copied().collect()
}

#[test]
fn error_codes() {
    assert_eq!(SUCCESS, 0);
    assert_eq!(FAILURE, -1);
    assert_eq!(DEADLOCK, -0xDEAD);
    assert_eq!(DEADLOCK, -57005);
    assert_eq!(Error::InvalidArgument.code(), -1);
    assert_eq!(Error::Overlap.code(), -1);
    assert_eq!(Error::NotFound.code(), -1);
    assert_eq!(Error::ResourceExhausted.code(), -1);
    assert_eq!(Error::DeadlockDetected.code(), -0xDEAD);
}

#[test]
fn a_new_table_has_no_slots_and_the_detector_on() {
    let table = ResourceTable::new();
    assert!(table.tasks().is_empty());
    assert!(table.mutex_list().is_empty());
    assert!(table.semaphore_list().is_empty());
    assert!(table.condvar_list().is_empty());
    assert!(table.mutex_allocation().is_empty());
    assert!(table.semaphore_allocation().is_empty());
    assert!(table.semaphore_need().is_empty());
    assert!(table.semaphore_available().is_empty());
    assert!(table.deadlock_detect());
}

#[test]
fn the_task_index_is_the_first_slot_that_holds_the_task() {
    let mut table = table_of(&[A, B, C]);
    assert_eq!(current_task_id(&table, A), 0);
    assert_eq!(current_task_id(&table, B), 1);
    assert_eq!(current_task_id(&table, C), 2);
    // A task that no slot holds resolves to zero.
    assert_eq!(current_task_id(&table, 0x9999), 0);
    assert_eq!(current_task_id(&ResourceTable::new(), A), 0);
    assert_eq!(table.remove_task(0), Ok(()));
    assert_eq!(current_task_id(&table, B), 1);
    assert_eq!(current_task_id(&table, A), 0);
    // Of two slots with the same task the first counts.
    assert_eq!(table.add_task(C), 0);
    assert_eq!(current_task_id(&table, C), 0);
}

#[test]
fn a_new_task_gets_a_zero_row_in_every_matrix() {
    let mut table = table_of(&[A]);
    assert_eq!(sys_mutex_create(&mut table, true), 0);
    assert_eq!(sys_mutex_create(&mut table, false), 1);
    assert_eq!(sys_semaphore_create(&mut table, 3), 0);
    assert_eq!(table.add_task(B), 1);
    assert_eq!(*table.tasks(), vec![Some(A), Some(B)]);
    assert_eq!(*table.mutex_allocation(), vec![vec![0, 0], vec![0, 0]]);
    assert_eq!(*table.semaphore_allocation(), vec![vec![0], vec![0]]);
    assert_eq!(*table.semaphore_need(), vec![vec![0], vec![0]]);
    assert_eq!(*table.semaphore_available(), vec![3]);
}

#[test]
fn an_exited_task_keeps_its_row_until_its_slot_is_given_away() {
    let mut table = table_of(&[A, B]);
    assert_eq!(sys_mutex_create(&mut table, true), 0);
    assert_eq!(sys_semaphore_create(&mut table, 2), 0);
    assert_eq!(sys_mutex_lock(&mut table, A, 0), done(0));
    assert_eq!(sys_enable_deadlock_detect(&mut table, 0), 0);
    assert_eq!(sys_semaphore_down(&mut table, A, 0), done(0));
    assert_eq!(table.remove_task(0), Ok(()));
    assert_eq!(*table.tasks(), vec![None, Some(B)]);
    assert_eq!(*table.mutex_allocation(), vec![vec![1], vec![0]]);
    assert_eq!(*table.semaphore_allocation(), vec![vec![1], vec![0]]);
    // The slot of the exited task is the lowest empty one: the next task gets it, clean.
    assert_eq!(table.add_task(C), 0);
    assert_eq!(*table.tasks(), vec![Some(C), Some(B)]);
    assert_eq!(*table.mutex_allocation(), vec![vec![0], vec![0]]);
    assert_eq!(*table.semaphore_allocation(), vec![vec![0], vec![0]]);
    assert_eq!(*table.semaphore_need(), vec![vec![0], vec![0]]);
}

#[test]
fn remove_task_tells_an_unknown_slot_from_an_empty_one() {
    let mut table = table_of(&[A]);
    assert_eq!(table.remove_task(1), Err(Error::InvalidArgument));
    assert_eq!(table.remove_task(0), Ok(()));
    assert_eq!(table.remove_task(0), Err(Error::NotFound));
    assert_eq!(*table.tasks(), vec![None]);
}

#[test]
fn resources_get_the_lowest_free_slot() {
    let mut table = table_of(&[A]);
    assert_eq!(sys_mutex_create(&mut table, true), 0);
    assert_eq!(sys_mutex_create(&mut table, false), 1);
    assert_eq!(sys_mutex_create(&mut table, true), 2);
    assert_eq!(table.close_mutex(1), Ok(()));
    assert_eq!(table.close_mutex(0), Ok(()));
    assert_eq!(sys_mutex_create(&mut table, false), 0);
    assert_eq!(sys_mutex_create(&mut table, false), 1);
    assert_eq!(sys_mutex_create(&mut table, false), 3);
    assert_eq!(*table.mutex_allocation(), vec![vec![0, 0, 0, 0]]);
    assert!(!table.mutex_list()[0].as_ref().unwrap().blocking());
    assert!(table.mutex_list()[2].as_ref().unwrap().blocking());

    assert_eq!(sys_semaphore_create(&mut table, 1), 0);
    assert_eq!(sys_semaphore_create(&mut table, 2), 1);
    assert_eq!(table.close_semaphore(0), Ok(()));
    assert_eq!(sys_semaphore_create(&mut table, 7), 0);
    assert_eq!(sys_semaphore_create(&mut table, 8), 2);
    assert_eq!(*table.semaphore_available(), vec![7, 2, 8]);

    assert_eq!(sys_condvar_create(&mut table), 0);
    assert_eq!(sys_condvar_create(&mut table), 1);
    assert_eq!(table.close_condvar(0), Ok(()));
    assert_eq!(sys_condvar_create(&mut table), 0);
    assert_eq!(sys_condvar_create(&mut table), 2);
}

#[test]
fn a_reused_mutex_slot_has_a_zero_column() {
    let mut table = table_of(&[A, B]);
    assert_eq!(sys_enable_deadlock_detect(&mut table, 0), 0);
    assert_eq!(sys_mutex_create(&mut table, false), 0);
    assert_eq!(sys_mutex_create(&mut table, true), 1);
    assert_eq!(sys_mutex_lock(&mut table, A, 0), done(0));
    assert_eq!(sys_mutex_lock(&mut table, B, 1), done(0));
    assert_eq!(*table.mutex_allocation(), vec![vec![1, 0], vec![0, 1]]);
    assert_eq!(table.close_mutex(1), Ok(()));
    // Closing leaves the accounting of the old occupant in place.
    assert_eq!(*table.mutex_allocation(), vec![vec![1, 0], vec![0, 1]]);
    assert_eq!(sys_mutex_create(&mut table, false), 1);
    assert_eq!(*table.mutex_allocation(), vec![vec![1, 0], vec![0, 0]]);
    assert!(!locked(&table, 1));
    assert!(!table.mutex_list()[1].as_ref().unwrap().blocking());
}

#[test]
fn a_reused_semaphore_slot_has_zero_columns_and_fresh_units() {
    let mut table = table_of(&[A, B]);
    assert_eq!(sys_enable_deadlock_detect(&mut table, 0), 0);
    assert_eq!(sys_semaphore_create(&mut table, 1), 0);
    assert_eq!(sys_semaphore_create(&mut table, 0), 1);
    assert_eq!(sys_semaphore_down(&mut table, A, 0), done(0));
    assert_eq!(sys_semaphore_down(&mut table, B, 0), blocked());
    assert_eq!(sys_semaphore_up(&mut table, B, 1), done(0));
    assert_eq!(*table.semaphore_allocation(), vec![vec![1, 0], vec![0, -1]]);
    assert_eq!(*table.semaphore_need(), vec![vec![0, 0], vec![1, 0]]);
    assert_eq!(*table.semaphore_available(), vec![0, 1]);
    assert_eq!(table.close_semaphore(0), Ok(()));
    assert_eq!(sys_semaphore_create(&mut table, 5), 0);
    assert_eq!(*table.semaphore_allocation(), vec![vec![0, 0], vec![0, -1]]);
    assert_eq!(*table.semaphore_need(), vec![vec![0, 0], vec![0, 0]]);
    assert_eq!(*table.semaphore_available(), vec![5, 1]);
    assert_eq!(table.semaphore_list()[0].as_ref().unwrap().count, 5);
    assert!(semaphore_waiters(&table, 0).is_empty());
}

#[test]
fn close_tells_an_unknown_slot_from_an_empty_one() {
    let mut table = table_of(&[A]);
    assert_eq!(table.close_mutex(0), Err(Error::InvalidArgument));
    assert_eq!(table.close_semaphore(0), Err(Error::InvalidArgument));
    assert_eq!(table.close_condvar(0), Err(Error::InvalidArgument));
    assert_eq!(sys_mutex_create(&mut table, true), 0);
    assert_eq!(sys_semaphore_create(&mut table, 1), 0);
    assert_eq!(sys_condvar_create(&mut table), 0);
    assert_eq!(table.close_mutex(0), Ok(()));
    assert_eq!(table.close_semaphore(0), Ok(()));
    assert_eq!(table.close_condvar(0), Ok(()));
    assert_eq!(table.close_mutex(0), Err(Error::NotFound));
    assert_eq!(table.close_semaphore(0), Err(Error::NotFound));
    assert_eq!(table.close_condvar(0), Err(Error::NotFound));
    assert_eq!(table.close_mutex(1), Err(Error::InvalidArgument));
    // A closed resource is not found by the calls any more.
    assert_eq!(sys_mutex_lock(&mut table, A, 0), done(-1));
    assert_eq!(sys_semaphore_down(&mut table, A, 0), done(-1));
    assert_eq!(sys_condvar_signal(&mut table, 0), done(-1));
}

#[test]
fn a_semaphore_of_more_units_than_can_be_counted_is_refused() {
    let mut table = table_of(&[A]);
    assert_eq!(sys_semaphore_create(&mut table, isize::MAX as usize + 1), -1);
    assert_eq!(table.create_semaphore(usize::MAX), Err(Error::InvalidArgument));
    assert!(table.semaphore_list().is_empty());
    assert_eq!(sys_semaphore_create(&mut table, isize::MAX as usize), 0);
    assert_eq!(*table.semaphore_available(), vec![isize::MAX]);
    // No further unit can be counted.
    assert_eq!(sys_semaphore_up(&mut table, A, 0), done(-1));
    assert_eq!(*table.semaphore_available(), vec![isize::MAX]);
    assert_eq!(*table.semaphore_allocation(), vec![vec![0]]);
}

#[test]
fn deadlock_of_two_tasks_on_two_mutexes_is_refused_and_nothing_changes() {
    let mut table = table_of(&[A, B]);
    assert_eq!(sys_mutex_create(&mut table, true), 0);
    assert_eq!(sys_mutex_create(&mut table, true), 1);
    // Each task takes one mutex while the detector is off.
    assert_eq!(sys_enable_deadlock_detect(&mut table, 0), 0);
    assert_eq!(sys_mutex_lock(&mut table, A, 0), done(0));
    assert_eq!(sys_mutex_lock(&mut table, B, 1), done(0));
    assert_eq!(sys_enable_deadlock_detect(&mut table, 1), 0);
    assert_eq!(*table.mutex_allocation(), vec![vec![1, 0], vec![0, 1]]);
    // Task 0 asks for mutex 1.
    assert!(test_mutex_dead_lock(&table, 0, 1));
    assert_eq!(sys_mutex_lock(&mut table, A, 1), done(-0xDEAD));
    assert_eq!(*table.mutex_allocation(), vec![vec![1, 0], vec![0, 1]]);
    assert!(locked(&table, 0) && locked(&table, 1));
    assert!(mutex_waiters(&table, 0).is_empty());
    assert!(mutex_waiters(&table, 1).is_empty());
    // And task 1 for mutex 0.
    assert!(test_mutex_dead_lock(&table, 1, 0));
    assert_eq!(sys_mutex_lock(&mut table, B, 0), done(-0xDEAD));
    assert_eq!(*table.mutex_allocation(), vec![vec![1, 0], vec![0, 1]]);
    assert!(mutex_waiters(&table, 0).is_empty());
}

#[test]
fn the_first_lock_of_a_free_mutex_is_safe_and_granted() {
    let mut table = table_of(&[A, B]);
    assert_eq!(sys_mutex_create(&mut table, true), 0);
    assert_eq!(sys_mutex_create(&mut table, false), 1);
    assert!(!test_mutex_dead_lock(&table, 1, 1));
    assert_eq!(sys_mutex_lock(&mut table, B, 1), done(0));
    assert_eq!(*table.mutex_allocation(), vec![vec![0, 0], vec![0, 1]]);
    assert!(locked(&table, 1));
    assert!(!locked(&table, 0));
    assert_eq!(sys_mutex_unlock(&mut table, B, 1), done(0));
    assert_eq!(*table.mutex_allocation(), vec![vec![0, 0], vec![0, 0]]);
    assert!(!locked(&table, 1));
}

#[test]
fn an_uncontended_mutex_is_granted_beside_a_held_one_with_the_detector_off() {
    let mut table = table_of(&[A, B]);
    assert_eq!(sys_mutex_create(&mut table, true), 0);
    assert_eq!(sys_mutex_create(&mut table, true), 1);
    assert_eq!(sys_mutex_lock(&mut table, A, 0), done(0));
    assert_eq!(sys_enable_deadlock_detect(&mut table, 0), 0);
    assert_eq!(sys_mutex_lock(&mut table, B, 1), done(0));
    assert_eq!(table.mutex_allocation()[1][1], 1);
    assert_eq!(*table.mutex_allocation(), vec![vec![1, 0], vec![0, 1]]);
    assert!(locked(&table, 1));
    assert!(mutex_waiters(&table, 1).is_empty());
}

#[test]
fn while_a_live_task_holds_a_mutex_the_detector_refuses_every_request() {
    // The request row of a task is what it holds plus what it asks for, so a
    // task that holds a taken mutex never fits into the work vector.
    let mut table = table_of(&[A, B]);
    assert_eq!(sys_mutex_create(&mut table, true), 0);
    assert_eq!(sys_mutex_create(&mut table, true), 1);
    assert_eq!(sys_mutex_lock(&mut table, A, 0), done(0));
    assert!(test_mutex_dead_lock(&table, 1, 1));
    assert_eq!(sys_mutex_lock(&mut table, B, 1), done(-0xDEAD));
    assert_eq!(*table.mutex_allocation(), vec![vec![1, 0], vec![0, 0]]);
    assert!(!locked(&table, 1));
    // Once the holder has exited its slot counts as finished.
    assert_eq!(table.remove_task(0), Ok(()));
    assert!(!test_mutex_dead_lock(&table, 1, 1));
    assert_eq!(sys_mutex_lock(&mut table, B, 1), done(0));
    assert_eq!(*table.mutex_allocation(), vec![vec![1, 0], vec![0, 1]]);
}

#[test]
fn a_blocking_mutex_queues_its_waiters_and_hands_itself_over_in_order() {
    let mut table = table_of(&[A, B, C]);
    assert_eq!(sys_enable_deadlock_detect(&mut table, 0), 0);
    assert_eq!(sys_mutex_create(&mut table, true), 0);
    assert_eq!(sys_mutex_lock(&mut table, A, 0), done(0));
    assert_eq!(sys_mutex_lock(&mut table, B, 0), blocked());
    assert_eq!(sys_mutex_lock(&mut table, C, 0), blocked());
    assert_eq!(mutex_waiters(&table, 0), vec![B, C]);
    // Waiting is not holding.
    assert_eq!(*table.mutex_allocation(), vec![vec![1], vec![0], vec![0]]);
    // The release hands the mutex to B: it is never free in between.
    assert_eq!(sys_mutex_unlock(&mut table, A, 0), woke(B));
    assert!(locked(&table, 0));
    assert_eq!(mutex_waiters(&table, 0), vec![C]);
    assert_eq!(*table.mutex_allocation(), vec![vec![0], vec![0], vec![0]]);
    assert_eq!(mutex_lock_resume(&mut table, B, 0), done(0));
    assert_eq!(*table.mutex_allocation(), vec![vec![0], vec![1], vec![0]]);
    assert_eq!(mutex_waiters(&table, 0), vec![C]);
    assert_eq!(sys_mutex_unlock(&mut table, B, 0), woke(C));
    assert_eq!(mutex_lock_resume(&mut table, C, 0), done(0));
    assert_eq!(*table.mutex_allocation(), vec![vec![0], vec![0], vec![1]]);
    assert_eq!(sys_mutex_unlock(&mut table, C, 0), done(0));
    assert!(!locked(&table, 0));
    assert_eq!(*table.mutex_allocation(), vec![vec![0], vec![0], vec![0]]);
}

#[test]
fn a_spinning_mutex_makes_the_caller_yield_and_try_again() {
    let mut table = table_of(&[A, B]);
    assert_eq!(sys_enable_deadlock_detect(&mut table, 0), 0);
    assert_eq!(sys_mutex_create(&mut table, false), 0);
    assert_eq!(sys_mutex_lock(&mut table, A, 0), done(0));
    assert_eq!(sys_mutex_lock(&mut table, B, 0), yielded());
    assert_eq!(mutex_lock_resume(&mut table, B, 0), yielded());
    assert_eq!(*table.mutex_allocation(), vec![vec![1], vec![0]]);
    // Nobody is woken by the release: the spinner finds the mutex free when it runs.
    assert_eq!(sys_mutex_unlock(&mut table, A, 0), done(0));
    assert!(!locked(&table, 0));
    assert_eq!(mutex_lock_resume(&mut table, B, 0), done(0));
    assert!(locked(&table, 0));
    assert_eq!(*table.mutex_allocation(), vec![vec![0], vec![1]]);
}

#[test]
fn unlock_of_a_mutex_that_the_caller_does_not_hold_is_refused() {
    let mut table = table_of(&[A, B]);
    assert_eq!(sys_mutex_create(&mut table, true), 0);
    assert_eq!(sys_mutex_unlock(&mut table, A, 0), done(-1));
    assert_eq!(sys_mutex_lock(&mut table, A, 0), done(0));
    assert_eq!(sys_mutex_unlock(&mut table, B, 0), done(-1));
    assert!(locked(&table, 0));
    assert_eq!(*table.mutex_allocation(), vec![vec![1], vec![0]]);
    assert_eq!(sys_mutex_unlock(&mut table, A, 0), done(0));
    assert_eq!(sys_mutex_unlock(&mut table, A, 0), done(-1));
    assert_eq!(*table.mutex_allocation(), vec![vec![0], vec![0]]);
}

#[test]
fn a_task_that_asks_for_a_mutex_it_holds_is_refused_by_the_detector() {
    let mut table = table_of(&[A]);
    assert_eq!(sys_mutex_create(&mut table, true), 0);
    assert_eq!(sys_mutex_lock(&mut table, A, 0), done(0));
    assert!(test_mutex_dead_lock(&table, 0, 0));
    assert_eq!(sys_mutex_lock(&mut table, A, 0), done(-0xDEAD));
    assert_eq!(*table.mutex_allocation(), vec![vec![1]]);
    assert!(mutex_waiters(&table, 0).is_empty());
}

#[test]
fn calls_with_unknown_tasks_or_identifiers_fail() {
    let mut table = table_of(&[A]);
    assert_eq!(sys_mutex_create(&mut table, true), 0);
    assert_eq!(sys_semaphore_create(&mut table, 1), 0);
    assert_eq!(sys_condvar_create(&mut table), 0);
    let unknown = 0x9999;
    assert_eq!(sys_mutex_lock(&mut table, unknown, 0), done(-1));
    assert_eq!(sys_mutex_lock(&mut table, A, 1), done(-1));
    assert_eq!(sys_mutex_lock(&mut table, A, usize::MAX), done(-1));
    assert_eq!(mutex_lock_resume(&mut table, unknown, 0), done(-1));
    assert_eq!(mutex_lock_resume(&mut table, A, 1), done(-1));
    assert_eq!(sys_mutex_unlock(&mut table, unknown, 0), done(-1));
    assert_eq!(sys_mutex_unlock(&mut table, A, 1), done(-1));
    assert_eq!(sys_semaphore_up(&mut table, unknown, 0), done(-1));
    assert_eq!(sys_semaphore_up(&mut table, A, 1), done(-1));
    assert_eq!(sys_semaphore_down(&mut table, unknown, 0), done(-1));
    assert_eq!(sys_semaphore_down(&mut table, A, 1), done(-1));
    assert_eq!(semaphore_down_resume(&mut table, unknown, 0), done(-1));
    assert_eq!(semaphore_down_resume(&mut table, A, 1), done(-1));
    assert_eq!(sys_condvar_signal(&mut table, 1), done(-1));
    assert_eq!(sys_condvar_wait(&mut table, A, 1, 0), done(-1));
    assert_eq!(sys_condvar_wait(&mut table, A, 0, 1), done(-1));
    assert_eq!(condvar_wait_resume(&mut table, A, 1), done(-1));
    assert_eq!(*table.mutex_allocation(), vec![vec![0]]);
    assert_eq!(*table.semaphore_allocation(), vec![vec![0]]);
    assert_eq!(*table.semaphore_need(), vec![vec![0]]);
    assert_eq!(*table.semaphore_available(), vec![1]);
    assert!(!locked(&table, 0));
    assert!(condvar_waiters(&table, 0).is_empty());
    // Without any task slot nobody can call.
    let mut empty = ResourceTable::new();
    assert_eq!(sys_mutex_create(&mut empty, true), 0);
    assert_eq!(sys_mutex_lock(&mut empty, A, 0), done(-1));
}

#[test]
fn a_second_down_blocks_until_the_holder_calls_up() {
    let mut table = table_of(&[A, B]);
    assert_eq!(sys_semaphore_create(&mut table, 1), 0);
    assert_eq!(sys_semaphore_down(&mut table, A, 0), done(0));
    assert_eq!(*table.semaphore_allocation(), vec![vec![1], vec![0]]);
    assert_eq!(*table.semaphore_available(), vec![0]);
    // B does not get the unit: it is queued.
    assert!(!test_sem_dead_lock(&table, 1, 0));
    assert_eq!(sys_semaphore_down(&mut table, B, 0), blocked());
    assert_eq!(semaphore_waiters(&table, 0), vec![B]);
    assert_eq!(*table.semaphore_allocation(), vec![vec![1], vec![0]]);
    assert_eq!(*table.semaphore_need(), vec![vec![0], vec![1]]);
    assert_eq!(*table.semaphore_available(), vec![0]);
    assert_eq!(table.semaphore_list()[0].as_ref().unwrap().count, -1);
    // A gives the unit back, which wakes B.
    assert_eq!(sys_semaphore_up(&mut table, A, 0), woke(B));
    assert!(semaphore_waiters(&table, 0).is_empty());
    assert_eq!(*table.semaphore_allocation(), vec![vec![0], vec![0]]);
    assert_eq!(*table.semaphore_available(), vec![1]);
    // B returns from its call.
    assert_eq!(semaphore_down_resume(&mut table, B, 0), done(0));
    assert_eq!(table.semaphore_allocation()[1][0], 1);
    assert_eq!(table.semaphore_available()[0], 0);
    assert_eq!(*table.semaphore_allocation(), vec![vec![0], vec![1]]);
    assert_eq!(*table.semaphore_need(), vec![vec![0], vec![0]]);
    assert_eq!(table.semaphore_list()[0].as_ref().unwrap().count, 0);
}

#[test]
fn semaphore_waiters_are_woken_in_the_order_in_which_they_came() {
    let mut table = table_of(&[A, B, C]);
    assert_eq!(sys_enable_deadlock_detect(&mut table, 0), 0);
    assert_eq!(sys_semaphore_create(&mut table, 0), 0);
    assert_eq!(sys_semaphore_down(&mut table, C, 0), blocked());
    assert_eq!(sys_semaphore_down(&mut table, A, 0), blocked());
    assert_eq!(semaphore_waiters(&table, 0), vec![C, A]);
    assert_eq!(*table.semaphore_need(), vec![vec![1], vec![0], vec![1]]);
    assert_eq!(sys_semaphore_up(&mut table, B, 0), woke(C));
    assert_eq!(sys_semaphore_up(&mut table, B, 0), woke(A));
    assert_eq!(sys_semaphore_up(&mut table, B, 0), done(0));
    assert_eq!(*table.semaphore_allocation(), vec![vec![0], vec![-3], vec![0]]);
    assert_eq!(*table.semaphore_available(), vec![3]);
    assert_eq!(semaphore_down_resume(&mut table, C, 0), done(0));
    assert_eq!(semaphore_down_resume(&mut table, A, 0), done(0));
    assert_eq!(*table.semaphore_allocation(), vec![vec![1], vec![-3], vec![1]]);
    assert_eq!(*table.semaphore_need(), vec![vec![0], vec![0], vec![0]]);
    assert_eq!(*table.semaphore_available(), vec![1]);
    assert_eq!(table.semaphore_list()[0].as_ref().unwrap().count, 1);
}

#[test]
fn a_down_that_nobody_could_ever_satisfy_is_refused() {
    let mut table = table_of(&[A, B]);
    assert_eq!(sys_semaphore_create(&mut table, 1), 0);
    assert_eq!(sys_semaphore_create(&mut table, 1), 1);
    assert_eq!(sys_semaphore_down(&mut table, A, 0), done(0));
    assert_eq!(sys_semaphore_down(&mut table, B, 1), done(0));
    // A waits for the unit of B ...
    assert_eq!(sys_semaphore_down(&mut table, A, 1), blocked());
    assert_eq!(*table.semaphore_need(), vec![vec![0, 1], vec![0, 0]]);
    // ... so B must not wait for the unit of A.
    assert!(test_sem_dead_lock(&table, 1, 0));
    let need = table.semaphore_need().clone();
    let allocation = table.semaphore_allocation().clone();
    assert_eq!(sys_semaphore_down(&mut table, B, 0), done(-0xDEAD));
    assert_eq!(*table.semaphore_need(), need);
    assert_eq!(*table.semaphore_allocation(), allocation);
    assert_eq!(*table.semaphore_available(), vec![0, 0]);
    assert!(semaphore_waiters(&table, 0).is_empty());
    assert_eq!(table.semaphore_list()[0].as_ref().unwrap().count, 0);
    // With the detector off the same call is queued.
    assert_eq!(sys_enable_deadlock_detect(&mut table, 0), 0);
    assert_eq!(sys_semaphore_down(&mut table, B, 0), blocked());
    assert_eq!(semaphore_waiters(&table, 0), vec![B]);
}

#[test]
fn a_condition_variable_releases_the_mutex_and_wakes_in_order() {
    let mut table = table_of(&[A, B, C]);
    assert_eq!(sys_enable_deadlock_detect(&mut table, 0), 0);
    assert_eq!(sys_mutex_create(&mut table, true), 0);
    assert_eq!(sys_condvar_create(&mut table), 0);
    // A signal without a waiter is lost.
    assert_eq!(sys_condvar_signal(&mut table, 0), done(0));
    assert_eq!(sys_mutex_lock(&mut table, A, 0), done(0));
    assert_eq!(sys_condvar_wait(&mut table, A, 0, 0), blocked());
    assert!(!locked(&table, 0));
    assert_eq!(condvar_waiters(&table, 0), vec![A]);
    // The wait is not accounted for.
    assert_eq!(*table.mutex_allocation(), vec![vec![1], vec![0], vec![0]]);
    assert_eq!(sys_mutex_lock(&mut table, B, 0), done(0));
    assert_eq!(sys_condvar_wait(&mut table, B, 0, 0), blocked());
    assert_eq!(condvar_waiters(&table, 0), vec![A, B]);
    assert_eq!(sys_mutex_lock(&mut table, C, 0), done(0));
    assert_eq!(sys_condvar_signal(&mut table, 0), woke(A));
    assert_eq!(condvar_waiters(&table, 0), vec![B]);
    // A wants the mutex back, which C holds.
    assert_eq!(condvar_wait_resume(&mut table, A, 0), blocked());
    assert_eq!(mutex_waiters(&table, 0), vec![A]);
    assert_eq!(sys_mutex_unlock(&mut table, C, 0), woke(A));
    assert!(locked(&table, 0));
    assert_eq!(sys_condvar_signal(&mut table, 0), woke(B));
    assert_eq!(sys_condvar_signal(&mut table, 0), done(0));
    assert_eq!(*table.mutex_allocation(), vec![vec![1], vec![1], vec![0]]);
}

#[test]
fn a_wait_hands_the_mutex_to_the_task_that_waits_for_it() {
    let mut table = table_of(&[A, B]);
    assert_eq!(sys_enable_deadlock_detect(&mut table, 0), 0);
    assert_eq!(sys_mutex_create(&mut table, true), 0);
    assert_eq!(sys_condvar_create(&mut table), 0);
    assert_eq!(sys_mutex_lock(&mut table, A, 0), done(0));
    assert_eq!(sys_mutex_lock(&mut table, B, 0), blocked());
    assert_eq!(
        sys_condvar_wait(&mut table, A, 0, 0),
        Outcome { step: Step::Block, wake: Some(B), timer: None }
    );
    assert!(locked(&table, 0));
    assert!(mutex_waiters(&table, 0).is_empty());
    assert_eq!(condvar_waiters(&table, 0), vec![A]);
    assert_eq!(mutex_lock_resume(&mut table, B, 0), done(0));
}

#[test]
fn after_a_signal_the_waiter_takes_a_free_mutex_at_once_or_spins_for_a_taken_one() {
    let mut table = table_of(&[A, B]);
    assert_eq!(sys_enable_deadlock_detect(&mut table, 0), 0);
    assert_eq!(sys_mutex_create(&mut table, false), 0);
    assert_eq!(sys_condvar_create(&mut table), 0);
    assert_eq!(sys_mutex_lock(&mut table, A, 0), done(0));
    assert_eq!(sys_condvar_wait(&mut table, A, 0, 0), blocked());
    assert_eq!(sys_mutex_lock(&mut table, B, 0), done(0));
    assert_eq!(sys_condvar_signal(&mut table, 0), woke(A));
    assert_eq!(condvar_wait_resume(&mut table, A, 0), yielded());
    assert_eq!(sys_mutex_unlock(&mut table, B, 0), done(0));
    assert_eq!(condvar_wait_resume(&mut table, A, 0), done(0));
    assert!(locked(&table, 0));
}

#[test]
fn the_detector_is_switched_by_zero_and_one_only() {
    let mut table = table_of(&[A]);
    assert!(table.deadlock_detect());
    assert_eq!(sys_enable_deadlock_detect(&mut table, 2), -1);
    assert_eq!(sys_enable_deadlock_detect(&mut table, usize::MAX), -1);
    assert!(table.deadlock_detect());
    assert_eq!(sys_enable_deadlock_detect(&mut table, 0), 0);
    assert!(!table.deadlock_detect());
    assert_eq!(sys_enable_deadlock_detect(&mut table, 7), -1);
    assert!(!table.deadlock_detect());
    assert_eq!(sys_enable_deadlock_detect(&mut table, 1), 0);
    assert!(table.deadlock_detect());
}

#[test]
fn sleep_asks_for_a_timer_at_the_time_of_waking() {
    assert_eq!(
        sys_sleep(1_000, 250),
        Outcome { step: Step::Block, wake: None, timer: Some(1_250) }
    );
    assert_eq!(sys_sleep(7, 0), Outcome { step: Step::Block, wake: None, timer: Some(7) });
    assert_eq!(
        sys_sleep(usize::MAX - 1, 1),
        Outcome { step: Step::Block, wake: None, timer: Some(usize::MAX) }
    );
    assert_eq!(sys_sleep(usize::MAX, 1), done(-1));
    assert_eq!(sys_sleep(1, usize::MAX), done(-1));
}

#[derive(Clone, Copy, PartialEq, Debug)]
enum At {
    Enter,
    Resume,
    Inside(u8),
    Leave,
    Done,
}

/// Runs `tasks` tasks round robin. Each goes `rounds` times through a section
/// that it enters with `enter`, resumes with `resume` and leaves with `leave`,
/// and stays inside for two turns. Returns the greatest number of tasks that
/// were inside at once.
fn run_tasks(
    table: &mut ResourceTable,
    tasks: usize,
    rounds: usize,
    enter: fn(&mut ResourceTable, usize) -> Outcome,
    resume: fn(&mut ResourceTable, usize) -> Outcome,
    leave: fn(&mut ResourceTable, usize) -> Outcome,
) -> usize {
    let handle = |t: usize| 0x100 * (t + 1);
    for t in 0..tasks {
        assert_eq!(table.add_task(handle(t)), t);
    }
    let mut at = vec![At::Enter; tasks];
    let mut left = vec![rounds; tasks];
    let mut blocked = vec![false; tasks];
    let mut most_inside = 0;
    let mut turns = 0;
    while at.iter().any(|&a| a != At::Done) {
        turns += 1;
        assert!(turns < 10_000, "the tasks do not come to an end");
        let t = turns % tasks;
        if blocked[t] || at[t] == At::Done {
            continue;
        }
        match at[t] {
            At::Enter | At::Resume => {
                let outcome = if at[t] == At::Enter {
                    enter(table, handle(t))
                } else {
                    resume(table, handle(t))
                };
                assert_eq!(outcome.wake, None);
                match outcome.step {
                    Step::Return(code) => {
                        assert_eq!(code, 0);
                        at[t] = At::Inside(2);
                    }
                    Step::Yield => at[t] = At::Resume,
                    Step::Block => {
                        at[t] = At::Resume;
                        blocked[t] = true;
                    }
                }
            }
            At::Inside(0) => at[t] = At::Leave,
            At::Inside(turns_left) => at[t] = At::Inside(turns_left - 1),
            At::Leave => {
                let outcome = leave(table, handle(t));
                assert_eq!(outcome.step, Step::Return(0));
                if let Some(woken) = outcome.wake {
                    let w = woken / 0x100 - 1;
                    assert!(blocked[w]);
                    blocked[w] = false;
                }
                left[t] -= 1;
                at[t] = if left[t] == 0 { At::Done } else { At::Enter };
            }
            At::Done => {}
        }
        let inside = at.iter().filter(|a| matches!(a, At::Inside(_) | At::Leave)).count();
        most_inside = most_inside.max(inside);
    }
    assert!(blocked.iter().all(|&b| !b));
    most_inside
}

#[test]
fn tasks_that_share_a_blocking_mutex_are_inside_one_at_a_time() {
    let mut table = ResourceTable::new();
    assert_eq!(sys_enable_deadlock_detect(&mut table, 0), 0);
    assert_eq!(sys_mutex_create(&mut table, true), 0);
    let most = run_tasks(
        &mut table,
        4,
        3,
        |table, task| sys_mutex_lock(table, task, 0),
        |table, task| mutex_lock_resume(table, task, 0),
        |table, task| sys_mutex_unlock(table, task, 0),
    );
    assert_eq!(most, 1);
    assert_eq!(*table.mutex_allocation(), vec![vec![0]; 4]);
    assert!(!locked(&table, 0));
    assert!(mutex_waiters(&table, 0).is_empty());
}

#[test]
fn tasks_that_share_a_spinning_mutex_are_inside_one_at_a_time() {
    let mut table = ResourceTable::new();
    assert_eq!(sys_enable_deadlock_detect(&mut table, 0), 0);
    assert_eq!(sys_mutex_create(&mut table, false), 0);
    let most = run_tasks(
        &mut table,
        3,
        4,
        |table, task| sys_mutex_lock(table, task, 0),
        |table, task| mutex_lock_resume(table, task, 0),
        |table, task| sys_mutex_unlock(table, task, 0),
    );
    assert_eq!(most, 1);
    assert_eq!(*table.mutex_allocation(), vec![vec![0]; 3]);
    assert!(!locked(&table, 0));
}

#[test]
fn a_semaphore_of_two_units_lets_two_tasks_inside() {
    let mut table = ResourceTable::new();
    assert_eq!(sys_semaphore_create(&mut table, 2), 0);
    let most = run_tasks(
        &mut table,
        5,
        3,
        |table, task| sys_semaphore_down(table, task, 0),
        |table, task| semaphore_down_resume(table, task, 0),
        |table, task| sys_semaphore_up(table, task, 0),
    );
    assert_eq!(most, 2);
    assert_eq!(*table.semaphore_allocation(), vec![vec![0]; 5]);
    assert_eq!(*table.semaphore_need(), vec![vec![0]; 5]);
    assert_eq!(*table.semaphore_available(), vec![2]);
    assert_eq!(table.semaphore_list()[0].as_ref().unwrap().count, 2);
    assert!(semaphore_waiters(&table, 0).is_empty());
}

#[test]
fn the_detector_answers_for_either_kind_of_resource() {
    let mut table = table_of(&[A, B]);
    assert_eq!(sys_mutex_create(&mut table, true), 0);
    assert_eq!(sys_semaphore_create(&mut table, 1), 0);
    assert_eq!(detect(&table, 0, 0, ResourceKind::Mutex), Verdict::Safe);
    assert_eq!(detect(&table, 1, 0, ResourceKind::Semaphore), Verdict::Safe);
    assert_eq!(sys_mutex_lock(&mut table, A, 0), done(0));
    assert_eq!(detect(&table, 1, 0, ResourceKind::Mutex), Verdict::Unsafe);
    assert_eq!(detect(&table, 1, 0, ResourceKind::Semaphore), Verdict::Safe);
    // A semaphore without units that nobody holds can never be taken.
    assert_eq!(sys_semaphore_create(&mut table, 0), 1);
    assert_eq!(detect(&table, 0, 1, ResourceKind::Semaphore), Verdict::Unsafe);
    assert!(test_sem_dead_lock(&table, 0, 1));
}
