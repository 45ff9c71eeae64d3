//! The system calls for synchronization.
//!
//! Each call is one step on the table of the calling process, taken while the
//! process-wide lock is held; none of them suspends the caller. A call that
//! has to wait says so in its [`Outcome`], and the scheduler calls the matching
//! `..._resume` function when the task runs again.
//!
//! An acquisition goes through the same stations every time: the caller is
//! resolved to its task slot, the arguments are checked, the detector is asked
//! (unless it is switched off), and only then is anything changed.

use crate::action::{Outcome, Step};
use crate::error::{Error, FAILURE, SUCCESS};
use crate::model::{bump, drop_unit, find_task};
use crate::primitive::Acquire;
use crate::resource::{lemma_matrix_shape, matrix, ResourceTable};
use crate::safety::{test_mutex_dead_lock, test_sem_dead_lock};
use crate::slots::{first_empty, lemma_position, lemma_position_is};
use vstd::prelude::*;

verus! {

/// The index of the first task slot that holds `handle`, or the number of
/// slots if none does.
fn find_task_slot(tasks: &Vec<Option<usize>>, handle: usize) -> (slot: usize)
    ensures
        slot == find_task(tasks@, handle),
        slot <= tasks.len(),
{
    let mut slot: usize = 0;
    while slot < tasks.len()
        invariant
            slot <= tasks.len(),
            forall|i: int| 0 <= i < slot ==> #[trigger] tasks[i] != Some(handle),
        ensures
            slot < tasks.len() ==> tasks[slot as int] == Some(handle),
        decreases tasks.len() - slot,
    {
        let found = match tasks[slot] {
            Some(task) => task == handle,
            None => false,
        };
        if found {
            break;
        }
        slot += 1;
    }
    proof {
        lemma_position_is(tasks@, Some(handle), slot as int);
    }
    slot
}

/// The index of the task slot of the task `current`: the index under which the
/// matrices know the task. Zero if no slot holds `current`.
pub fn current_task_id(table: &ResourceTable, current: usize) -> (index: usize)
    ensures
        index == table@.task_index(current),
{
    let slot = find_task_slot(&table.tasks, current);
    if slot < table.tasks.len() {
        slot
    } else {
        0
    }
}

/// Adds one unit at row `t`, column `j`.
fn add_unit(m: &mut Vec<Vec<isize>>, t: usize, j: usize)
    requires
        t < old(m).len(),
        j < old(m)[t as int].len(),
        old(m)[t as int][j as int] < isize::MAX,
    ensures
        matrix(final(m)@) == bump(matrix(old(m)@), t as int, j as int),
{
    m[t][j] = m[t][j] + 1;
    proof {
        assert(matrix(m@)[t as int] =~= bump(matrix(old(m)@), t as int, j as int)[t as int]);
        assert(matrix(m@) =~= bump(matrix(old(m)@), t as int, j as int));
    }
}

/// Takes one unit away at row `t`, column `j`.
fn take_unit(m: &mut Vec<Vec<isize>>, t: usize, j: usize)
    requires
        t < old(m).len(),
        j < old(m)[t as int].len(),
        old(m)[t as int][j as int] > isize::MIN,
    ensures
        matrix(final(m)@) == drop_unit(matrix(old(m)@), t as int, j as int),
{
    m[t][j] = m[t][j] - 1;
    proof {
        assert(matrix(m@)[t as int] =~= drop_unit(matrix(old(m)@), t as int, j as int)[t as int]);
        assert(matrix(m@) =~= drop_unit(matrix(old(m)@), t as int, j as int));
    }
}

/// Whether a task slot holds `current`, and if so, which.
fn resolve(table: &ResourceTable, current: usize) -> (slot: Option<usize>)
    ensures
        slot is Some <==> table@.runs(current),
        slot is Some ==> slot->0 == table@.task_index(current) && slot->0 < table.tasks.len(),
{
    let index = current_task_id(table, current);
    proof {
        lemma_position(table.tasks@, Some(current));
    }
    if index < table.tasks.len() {
        match table.tasks[index] {
            Some(task) => if task == current {
                Some(index)
            } else {
                None
            },
            None => None,
        }
    } else {
        None
    }
}

/// Creates a mutex, one that queues its waiters if `blocking` and one that
/// spins if not, and returns its identifier: the lowest free slot index. The
/// column of the slot in the allocation matrix is zero afterwards. Returns -1
/// where the table has no room.
pub fn sys_mutex_create(table: &mut ResourceTable, blocking: bool) -> (id: isize)
    requires
        old(table).wf(),
    ensures
        final(table).wf(),
        id == (if first_empty(old(table)@.mutexes) < isize::MAX {
            first_empty(old(table)@.mutexes)
        } else {
            -1
        }),
        final(table)@ == (if id >= 0 {
            old(table)@.create_mutex(blocking)
        } else {
            old(table)@
        }),
{
    match table.create_mutex(blocking) {
        Ok(id) => id as isize,
        Err(error) => error.code(),
    }
}

/// One attempt of the task `current`, known as `t`, to take mutex `mutex_id`,
/// with the accounting of a success.
fn mutex_take(table: &mut ResourceTable, t: usize, current: usize, mutex_id: usize) -> (outcome:
    Outcome)
    requires
        old(table).wf(),
        t < old(table).tasks.len(),
        old(table)@.has_mutex(mutex_id),
        old(table)@.mutex_allocation[t as int][mutex_id as int] < isize::MAX,
    ensures
        final(table).wf(),
        final(table)@ == old(table)@.mutex_take(t as int, current, mutex_id).0,
        outcome == old(table)@.mutex_take(t as int, current, mutex_id).1,
{
    proof {
        lemma_matrix_shape(
            table.mutex_allocation@,
            table.tasks@.len(),
            table.mutex_list@.len(),
        );
        assert(matrix(table.mutex_allocation@)[t as int][mutex_id as int]
            == table.mutex_allocation[t as int][mutex_id as int]);
    }
    let got = match &mut table.mutex_list[mutex_id] {
        Some(mutex) => mutex.lock(current),
        None => Acquire::Retry,
    };
    proof {
        let mutex = old(table)@.mutexes[mutex_id as int]->0;
        assert(table@.mutexes =~= old(table)@.mutexes.update(
            mutex_id as int,
            Some(mutex.lock(current)),
        ));
    }
    match got {
        Acquire::Acquired => {
            add_unit(&mut table.mutex_allocation, t, mutex_id);
            Outcome::returning(SUCCESS)
        },
        Acquire::Queued => Outcome::pausing(Step::Block),
        Acquire::Retry => Outcome::pausing(Step::Yield),
    }
}

/// The task `current` asks for mutex `mutex_id`.
///
/// The call fails with -1 where no task slot holds `current`, where
/// `mutex_id` names no mutex, and where the caller holds the mutex as often as
/// can be counted. It fails with -0xDEAD, and changes nothing, where the
/// detector is on and finds the request unsafe. Otherwise the mutex is tried:
/// a free one is taken and accounted for, and the call returns 0; at a taken
/// one the caller is queued and blocks, or, at a spinning mutex, yields.
pub fn sys_mutex_lock(table: &mut ResourceTable, current: usize, mutex_id: usize) -> (outcome:
    Outcome)
    requires
        old(table).wf(),
    ensures
        final(table).wf(),
        final(table)@ == old(table)@.mutex_lock(current, mutex_id).0,
        outcome == old(table)@.mutex_lock(current, mutex_id).1,
{
    let t = match resolve(table, current) {
        Some(t) => t,
        None => {
            return Outcome::failure();
        },
    };
    if mutex_id >= table.mutex_list.len() || table.mutex_list[mutex_id].is_none() {
        return Outcome::failure();
    }
    proof {
        lemma_matrix_shape(
            table.mutex_allocation@,
            table.tasks@.len(),
            table.mutex_list@.len(),
        );
        assert(matrix(table.mutex_allocation@)[t as int][mutex_id as int]
            == table.mutex_allocation[t as int][mutex_id as int]);
    }
    if table.mutex_allocation[t][mutex_id] == isize::MAX {
        return Outcome::failure();
    }
    if table.deadlock_detect && test_mutex_dead_lock(table, t, mutex_id) {
        return Outcome::returning(Error::DeadlockDetected.code());
    }
    mutex_take(table, t, current, mutex_id)
}

/// The task `current` goes on with [`sys_mutex_lock`] after it yielded or was
/// woken. The detector is not asked again.
///
/// A mutex that queues its waiters was handed to the caller when it was
/// woken: the acquisition is accounted for and the call returns 0. A
/// spinning mutex is tried again, as in [`sys_mutex_lock`].
pub fn mutex_lock_resume(table: &mut ResourceTable, current: usize, mutex_id: usize) -> (outcome:
    Outcome)
    requires
        old(table).wf(),
    ensures
        final(table).wf(),
        final(table)@ == old(table)@.mutex_lock_resume(current, mutex_id).0,
        outcome == old(table)@.mutex_lock_resume(current, mutex_id).1,
{
    let t = match resolve(table, current) {
        Some(t) => t,
        None => {
            return Outcome::failure();
        },
    };
    if mutex_id >= table.mutex_list.len() {
        return Outcome::failure();
    }
    let blocking = match &table.mutex_list[mutex_id] {
        Some(mutex) => mutex.blocking(),
        None => {
            return Outcome::failure();
        },
    };
    proof {
        lemma_matrix_shape(
            table.mutex_allocation@,
            table.tasks@.len(),
            table.mutex_list@.len(),
        );
        assert(matrix(table.mutex_allocation@)[t as int][mutex_id as int]
            == table.mutex_allocation[t as int][mutex_id as int]);
    }
    if table.mutex_allocation[t][mutex_id] == isize::MAX {
        return Outcome::failure();
    }
    if blocking {
        add_unit(&mut table.mutex_allocation, t, mutex_id);
        Outcome::returning(SUCCESS)
    } else {
        mutex_take(table, t, current, mutex_id)
    }
}

/// The task `current` releases mutex `mutex_id`.
///
/// The call fails with -1 where no task slot holds `current`, where
/// `mutex_id` names no mutex, and where the caller does not hold the mutex.
/// Otherwise the caller holds it once less, the mutex is released, and the
/// call returns 0. The outcome names the waiter to which the mutex was handed,
/// if there was one.
pub fn sys_mutex_unlock(table: &mut ResourceTable, current: usize, mutex_id: usize) -> (outcome:
    Outcome)
    requires
        old(table).wf(),
    ensures
        final(table).wf(),
        final(table)@ == old(table)@.mutex_unlock(current, mutex_id).0,
        outcome == old(table)@.mutex_unlock(current, mutex_id).1,
{
    let t = match resolve(table, current) {
        Some(t) => t,
        None => {
            return Outcome::failure();
        },
    };
    if mutex_id >= table.mutex_list.len() || table.mutex_list[mutex_id].is_none() {
        return Outcome::failure();
    }
    proof {
        lemma_matrix_shape(
            table.mutex_allocation@,
            table.tasks@.len(),
            table.mutex_list@.len(),
        );
        assert(matrix(table.mutex_allocation@)[t as int][mutex_id as int]
            == table.mutex_allocation[t as int][mutex_id as int]);
    }
    if table.mutex_allocation[t][mutex_id] <= 0 {
        return Outcome::failure();
    }
    take_unit(&mut table.mutex_allocation, t, mutex_id);
    let woken = match &mut table.mutex_list[mutex_id] {
        Some(mutex) => mutex.unlock(),
        None => None,
    };
    proof {
        let mutex = old(table)@.mutexes[mutex_id as int]->0;
        assert(table@.mutexes =~= old(table)@.mutexes.update(
            mutex_id as int,
            Some(mutex.unlock()),
        ));
    }
    Outcome::waking(woken)
}

/// Creates a semaphore of `res_count` free units and returns its identifier:
/// the lowest free slot index. The column of the slot is zero afterwards in
/// the allocation and the need matrix, and the slot has `res_count` free
/// units. Returns -1 for more units than `isize::MAX`, and where the table has
/// no room.
pub fn sys_semaphore_create(table: &mut ResourceTable, res_count: usize) -> (id: isize)
    requires
        old(table).wf(),
    ensures
        final(table).wf(),
        id == (if res_count <= isize::MAX && first_empty(old(table)@.semaphores) < isize::MAX {
            first_empty(old(table)@.semaphores)
        } else {
            -1
        }),
        final(table)@ == (if id >= 0 {
            old(table)@.create_semaphore(res_count)
        } else {
            old(table)@
        }),
{
    match table.create_semaphore(res_count) {
        Ok(id) => id as isize,
        Err(error) => error.code(),
    }
}

/// The task `current` gives a unit of semaphore `sem_id` back.
///
/// The call fails with -1 where no task slot holds `current`, where `sem_id`
/// names no semaphore, and where a count is at its limit. Otherwise the caller
/// holds one unit less, one more unit is free, and the call returns 0. The
/// outcome names the waiter that got the unit, if there was one.
pub fn sys_semaphore_up(table: &mut ResourceTable, current: usize, sem_id: usize) -> (outcome:
    Outcome)
    requires
        old(table).wf(),
    ensures
        final(table).wf(),
        final(table)@ == old(table)@.semaphore_up(current, sem_id).0,
        outcome == old(table)@.semaphore_up(current, sem_id).1,
{
    let t = match resolve(table, current) {
        Some(t) => t,
        None => {
            return Outcome::failure();
        },
    };
    if sem_id >= table.semaphore_list.len() {
        return Outcome::failure();
    }
    let count = match &table.semaphore_list[sem_id] {
        Some(semaphore) => semaphore.count,
        None => {
            return Outcome::failure();
        },
    };
    proof {
        lemma_matrix_shape(
            table.semaphore_allocation@,
            table.tasks@.len(),
            table.semaphore_list@.len(),
        );
        assert(matrix(table.semaphore_allocation@)[t as int][sem_id as int]
            == table.semaphore_allocation[t as int][sem_id as int]);
    }
    if table.semaphore_allocation[t][sem_id] == isize::MIN || table.semaphore_available[sem_id]
        == isize::MAX || count == isize::MAX {
        return Outcome::failure();
    }
    take_unit(&mut table.semaphore_allocation, t, sem_id);
    table.semaphore_available[sem_id] = table.semaphore_available[sem_id] + 1;
    let woken = match &mut table.semaphore_list[sem_id] {
        Some(semaphore) => semaphore.up(),
        None => None,
    };
    proof {
        let semaphore = old(table)@.semaphores[sem_id as int]->0;
        let goal = old(table)@.semaphore_up(current, sem_id).0;
        assert(table@.semaphores =~= goal.semaphores);
        assert(table@.semaphore_available =~= goal.semaphore_available);
    }
    Outcome::waking(woken)
}

/// The task `current` asks for a unit of semaphore `sem_id`.
///
/// The call fails with -1 where no task slot holds `current`, where `sem_id`
/// names no semaphore, and where a count is at its limit. It fails with
/// -0xDEAD, and changes nothing, where the detector is on and finds the
/// request unsafe. Otherwise the semaphore is asked: where a unit is free the
/// caller gets it, the accounting follows, and the call returns 0; where none
/// is, the unit is recorded as needed, and the caller is queued and blocks.
pub fn sys_semaphore_down(table: &mut ResourceTable, current: usize, sem_id: usize) -> (outcome:
    Outcome)
    requires
        old(table).wf(),
    ensures
        final(table).wf(),
        final(table)@ == old(table)@.semaphore_down(current, sem_id).0,
        outcome == old(table)@.semaphore_down(current, sem_id).1,
{
    let t = match resolve(table, current) {
        Some(t) => t,
        None => {
            return Outcome::failure();
        },
    };
    if sem_id >= table.semaphore_list.len() {
        return Outcome::failure();
    }
    let count = match &table.semaphore_list[sem_id] {
        Some(semaphore) => semaphore.count,
        None => {
            return Outcome::failure();
        },
    };
    proof {
        lemma_matrix_shape(
            table.semaphore_allocation@,
            table.tasks@.len(),
            table.semaphore_list@.len(),
        );
        lemma_matrix_shape(table.semaphore_need@, table.tasks@.len(), table.semaphore_list@.len());
        assert(matrix(table.semaphore_allocation@)[t as int][sem_id as int]
            == table.semaphore_allocation[t as int][sem_id as int]);
        assert(matrix(table.semaphore_need@)[t as int][sem_id as int]
            == table.semaphore_need[t as int][sem_id as int]);
    }
    if table.semaphore_need[t][sem_id] == isize::MAX || table.semaphore_allocation[t][sem_id]
        == isize::MAX || table.semaphore_available[sem_id] == isize::MIN || count == isize::MIN {
        return Outcome::failure();
    }
    if table.deadlock_detect && test_sem_dead_lock(table, t, sem_id) {
        return Outcome::returning(Error::DeadlockDetected.code());
    }
    let got = match &mut table.semaphore_list[sem_id] {
        Some(semaphore) => semaphore.down(current),
        None => Acquire::Queued,
    };
    proof {
        let semaphore = old(table)@.semaphores[sem_id as int]->0;
        assert(table@.semaphores =~= old(table)@.semaphores.update(
            sem_id as int,
            Some(semaphore.down(current)),
        ));
    }
    match got {
        Acquire::Acquired => {
            add_unit(&mut table.semaphore_allocation, t, sem_id);
            table.semaphore_available[sem_id] = table.semaphore_available[sem_id] - 1;
            proof {
                let goal = old(table)@.semaphore_down(current, sem_id).0;
                assert(table@.semaphore_available =~= goal.semaphore_available);
            }
            Outcome::returning(SUCCESS)
        },
        _ => {
            add_unit(&mut table.semaphore_need, t, sem_id);
            Outcome::pausing(Step::Block)
        },
    }
}

/// The task `current` goes on with [`sys_semaphore_down`] after it was woken:
/// it has the unit. The caller holds one unit more, one unit less is free, the
/// caller needs one unit less, and the call returns 0.
///
/// The call fails with -1 where no task slot holds `current`, where `sem_id`
/// names no semaphore, and where a count is at its limit.
pub fn semaphore_down_resume(table: &mut ResourceTable, current: usize, sem_id: usize) -> (outcome:
    Outcome)
    requires
        old(table).wf(),
    ensures
        final(table).wf(),
        final(table)@ == old(table)@.semaphore_down_resume(current, sem_id).0,
        outcome == old(table)@.semaphore_down_resume(current, sem_id).1,
{
    let t = match resolve(table, current) {
        Some(t) => t,
        None => {
            return Outcome::failure();
        },
    };
    if sem_id >= table.semaphore_list.len() || table.semaphore_list[sem_id].is_none() {
        return Outcome::failure();
    }
    proof {
        lemma_matrix_shape(
            table.semaphore_allocation@,
            table.tasks@.len(),
            table.semaphore_list@.len(),
        );
        lemma_matrix_shape(table.semaphore_need@, table.tasks@.len(), table.semaphore_list@.len());
        assert(matrix(table.semaphore_allocation@)[t as int][sem_id as int]
            == table.semaphore_allocation[t as int][sem_id as int]);
        assert(matrix(table.semaphore_need@)[t as int][sem_id as int]
            == table.semaphore_need[t as int][sem_id as int]);
    }
    if table.semaphore_need[t][sem_id] == isize::MIN || table.semaphore_allocation[t][sem_id]
        == isize::MAX || table.semaphore_available[sem_id] == isize::MIN {
        return Outcome::failure();
    }
    add_unit(&mut table.semaphore_allocation, t, sem_id);
    table.semaphore_available[sem_id] = table.semaphore_available[sem_id] - 1;
    take_unit(&mut table.semaphore_need, t, sem_id);
    proof {
        let goal = old(table)@.semaphore_down_resume(current, sem_id).0;
        assert(table@.semaphore_available =~= goal.semaphore_available);
    }
    Outcome::returning(SUCCESS)
}

/// Creates a condition variable and returns its identifier: the lowest free
/// slot index. Returns -1 where the table has no room.
pub fn sys_condvar_create(table: &mut ResourceTable) -> (id: isize)
    requires
        old(table).wf(),
    ensures
        final(table).wf(),
        id == (if first_empty(old(table)@.condvars) < isize::MAX {
            first_empty(old(table)@.condvars)
        } else {
            -1
        }),
        final(table)@ == (if id >= 0 {
            old(table)@.create_condvar()
        } else {
            old(table)@
        }),
{
    match table.create_condvar() {
        Ok(id) => id as isize,
        Err(error) => error.code(),
    }
}

/// Signals condition variable `condvar_id`: the longest waiting task is woken,
/// and a signal that finds no waiter is lost. Returns 0, and -1 where
/// `condvar_id` names no condition variable.
pub fn sys_condvar_signal(table: &mut ResourceTable, condvar_id: usize) -> (outcome: Outcome)
    requires
        old(table).wf(),
    ensures
        final(table).wf(),
        final(table)@ == old(table)@.condvar_signal(condvar_id).0,
        outcome == old(table)@.condvar_signal(condvar_id).1,
{
    if condvar_id >= table.condvar_list.len() || table.condvar_list[condvar_id].is_none() {
        return Outcome::failure();
    }
    let woken = match &mut table.condvar_list[condvar_id] {
        Some(condvar) => condvar.signal(),
        None => None,
    };
    proof {
        let goal = old(table)@.condvar_signal(condvar_id).0;
        assert(table@.condvars =~= goal.condvars);
    }
    Outcome::waking(woken)
}

/// The task `current` releases mutex `mutex_id` and waits on condition
/// variable `condvar_id`, in one step. The caller blocks; the outcome names
/// the waiter to which the mutex was handed, if there was one. Nothing is
/// accounted for. Once signalled, the caller goes on with
/// [`condvar_wait_resume`].
///
/// The call fails with -1 where one of the identifiers names nothing.
pub fn sys_condvar_wait(
    table: &mut ResourceTable,
    current: usize,
    condvar_id: usize,
    mutex_id: usize,
) -> (outcome: Outcome)
    requires
        old(table).wf(),
    ensures
        final(table).wf(),
        final(table)@ == old(table)@.condvar_wait(current, condvar_id, mutex_id).0,
        outcome == old(table)@.condvar_wait(current, condvar_id, mutex_id).1,
{
    if condvar_id >= table.condvar_list.len() || table.condvar_list[condvar_id].is_none()
        || mutex_id >= table.mutex_list.len() || table.mutex_list[mutex_id].is_none() {
        return Outcome::failure();
    }
    let woken = match (&mut table.condvar_list[condvar_id], &mut table.mutex_list[mutex_id]) {
        (Some(condvar), Some(mutex)) => condvar.wait(current, mutex),
        _ => None,
    };
    proof {
        let goal = old(table)@.condvar_wait(current, condvar_id, mutex_id).0;
        assert(table@.condvars =~= goal.condvars);
        assert(table@.mutexes =~= goal.mutexes);
    }
    Outcome { step: Step::Block, wake: woken, timer: None }
}

/// The task `current` goes on with [`sys_condvar_wait`] after it was
/// signalled: it tries to take mutex `mutex_id` again. With the mutex the call
/// returns 0. At a taken mutex the caller is queued and blocks, and the call
/// is complete, with 0, when the mutex is handed to it; at a taken spinning
/// mutex the caller yields and resumes here again. Nothing is accounted for.
///
/// The call fails with -1 where `mutex_id` names no mutex.
pub fn condvar_wait_resume(table: &mut ResourceTable, current: usize, mutex_id: usize) -> (outcome:
    Outcome)
    requires
        old(table).wf(),
    ensures
        final(table).wf(),
        final(table)@ == old(table)@.condvar_wait_resume(current, mutex_id).0,
        outcome == old(table)@.condvar_wait_resume(current, mutex_id).1,
{
    if mutex_id >= table.mutex_list.len() || table.mutex_list[mutex_id].is_none() {
        return Outcome::failure();
    }
    let got = match &mut table.mutex_list[mutex_id] {
        Some(mutex) => mutex.lock(current),
        None => Acquire::Retry,
    };
    proof {
        let goal = old(table)@.condvar_wait_resume(current, mutex_id).0;
        assert(table@.mutexes =~= goal.mutexes);
    }
    match got {
        Acquire::Acquired => Outcome::returning(SUCCESS),
        Acquire::Queued => Outcome::pausing(Step::Block),
        Acquire::Retry => Outcome::pausing(Step::Yield),
    }
}

/// Switches the detector on (`enabled` is 1) or off (`enabled` is 0) and
/// returns 0. Any other value is refused with -1.
pub fn sys_enable_deadlock_detect(table: &mut ResourceTable, enabled: usize) -> (code: isize)
    requires
        old(table).wf(),
    ensures
        final(table).wf(),
        code == (if enabled <= 1 {
            0int
        } else {
            -1int
        }),
        final(table)@ == (if enabled <= 1 {
            old(table)@.set_detection(enabled == 1)
        } else {
            old(table)@
        }),
{
    if enabled > 1 {
        return FAILURE;
    }
    table.deadlock_detect = enabled == 1;
    SUCCESS
}

/// The task that calls at the time `now_ms` sleeps for `ms` milliseconds: the
/// timer is to wake it at `now_ms + ms`, and it blocks until then. Where that
/// time cannot be told in a `usize`, the call fails with -1.
pub fn sys_sleep(now_ms: usize, ms: usize) -> (outcome: Outcome)
    ensures
        now_ms + ms <= usize::MAX ==> outcome == (Outcome {
            step: Step::Block,
            wake: None,
            timer: Some((now_ms + ms) as usize),
        }),
        now_ms + ms > usize::MAX ==> outcome == Outcome::done(-1),
{
    if ms > usize::MAX - now_ms {
        return Outcome::failure();
    }
    Outcome { step: Step::Block, wake: None, timer: Some(now_ms + ms) }
}

} // verus!
