//! The resource slot table of a process as a mathematical value, and what each
//! operation makes of it. The executable table of [`crate::resource`] and the
//! system calls of [`crate::syscall`] are held to these functions.

use crate::action::{Outcome, Step};
use crate::detector::safe;
use crate::error::Error;
use crate::primitive::{first_waiter, later_waiters, Acquire, MutexView, SemaphoreView};
use crate::slots::{
    clear_column, first_empty, install, nonnegative, position, rectangular, set_entry, zero_row,
};
use vstd::prelude::*;

verus! {

/// The index of the first slot that holds the task `handle`, or the number of
/// slots if none does.
pub open spec fn find_task(tasks: Seq<Option<usize>>, handle: usize) -> int {
    position(tasks, Some(handle))
}

/// The finish flags with which the detector starts: an empty task slot counts
/// as finished, a live task does not.
pub open spec fn idle(tasks: Seq<Option<usize>>) -> Seq<bool> {
    Seq::new(tasks.len(), |t: int| tasks[t] is None)
}

/// The work vector of the mutexes: one for a mutex that is free, zero for one
/// that is taken and for an empty slot.
pub open spec fn mutex_work(mutexes: Seq<Option<MutexView>>) -> Seq<int> {
    Seq::new(
        mutexes.len(),
        |j: int|
            if mutexes[j] is Some && !mutexes[j]->0.locked {
                1int
            } else {
                0int
            },
    )
}

/// `matrix` with one unit more at row `t`, column `j`.
pub open spec fn bump(matrix: Seq<Seq<int>>, t: int, j: int) -> Seq<Seq<int>> {
    set_entry(matrix, t, j, matrix[t][j] + 1)
}

/// `matrix` with one unit less at row `t`, column `j`.
pub open spec fn drop_unit(matrix: Seq<Seq<int>>, t: int, j: int) -> Seq<Seq<int>> {
    set_entry(matrix, t, j, matrix[t][j] - 1)
}

/// `matrix` with a row of `width` zeros at index `t`: in place of the row that
/// was there, or appended if `t` is the number of rows.
pub open spec fn clear_row(matrix: Seq<Seq<int>>, t: int, width: nat) -> Seq<Seq<int>> {
    if t < matrix.len() {
        matrix.update(t, zero_row(width))
    } else {
        matrix.push(zero_row(width))
    }
}

/// The resource slot table of one process.
pub struct TableView {
    /// The task slots: the handle of the task in each, or nothing where the
    /// task has exited. A task is known to the matrices by the index of its
    /// slot.
    pub tasks: Seq<Option<usize>>,
    pub mutexes: Seq<Option<MutexView>>,
    pub semaphores: Seq<Option<SemaphoreView>>,
    /// The waiters of each condition variable.
    pub condvars: Seq<Option<Seq<usize>>>,
    /// `mutex_allocation[t][m]`: how often task `t` holds mutex `m`.
    pub mutex_allocation: Seq<Seq<int>>,
    /// `semaphore_allocation[t][s]`: the units of semaphore `s` that task `t`
    /// holds.
    pub semaphore_allocation: Seq<Seq<int>>,
    /// `semaphore_need[t][s]`: the units of semaphore `s` that task `t` waits
    /// for.
    pub semaphore_need: Seq<Seq<int>>,
    /// The free units of each semaphore.
    pub semaphore_available: Seq<int>,
    /// Whether the detector is asked before an acquisition.
    pub deadlock_detect: bool,
}

impl TableView {
    /// The table of a new process: no slots, and the detector switched on.
    pub open spec fn empty() -> TableView {
        TableView {
            tasks: Seq::empty(),
            mutexes: Seq::empty(),
            semaphores: Seq::empty(),
            condvars: Seq::empty(),
            mutex_allocation: Seq::empty(),
            semaphore_allocation: Seq::empty(),
            semaphore_need: Seq::empty(),
            semaphore_available: Seq::empty(),
            deadlock_detect: true,
        }
    }

    /// Every matrix has one row per task slot and one column per resource
    /// slot, the primitives are well formed, no task holds a mutex a negative
    /// number of times, and every slot index can be reported as a signed code.
    pub open spec fn wf(self) -> bool {
        &&& self.mutexes.len() <= isize::MAX
        &&& self.semaphores.len() <= isize::MAX
        &&& self.condvars.len() <= isize::MAX
        &&& rectangular(self.mutex_allocation, self.tasks.len(), self.mutexes.len())
        &&& rectangular(self.semaphore_allocation, self.tasks.len(), self.semaphores.len())
        &&& rectangular(self.semaphore_need, self.tasks.len(), self.semaphores.len())
        &&& self.semaphore_available.len() == self.semaphores.len()
        &&& nonnegative(self.mutex_allocation)
        &&& forall|m: int|
            0 <= m < self.mutexes.len() && (#[trigger] self.mutexes[m]) is Some
                ==> self.mutexes[m]->0.wf()
        &&& forall|s: int|
            0 <= s < self.semaphores.len() && (#[trigger] self.semaphores[s]) is Some
                ==> self.semaphores[s]->0.wf()
    }

    /// Some task slot holds the task `handle`.
    pub open spec fn runs(self, handle: usize) -> bool {
        find_task(self.tasks, handle) < self.tasks.len()
    }

    /// The index under which the matrices know the task `handle`: that of the
    /// first slot that holds it, and zero if none does.
    pub open spec fn task_index(self, handle: usize) -> int {
        if self.runs(handle) {
            find_task(self.tasks, handle)
        } else {
            0
        }
    }

    /// `id` names a mutex.
    pub open spec fn has_mutex(self, id: usize) -> bool {
        id < self.mutexes.len() && self.mutexes[id as int] is Some
    }

    /// `id` names a semaphore.
    pub open spec fn has_semaphore(self, id: usize) -> bool {
        id < self.semaphores.len() && self.semaphores[id as int] is Some
    }

    /// `id` names a condition variable.
    pub open spec fn has_condvar(self, id: usize) -> bool {
        id < self.condvars.len() && self.condvars[id as int] is Some
    }

    /// The table with the task `handle` in the lowest empty task slot, or in a
    /// new one behind the others. The row of that slot is zero in every matrix.
    pub open spec fn add_task(self, handle: usize) -> TableView {
        let t = first_empty(self.tasks);
        TableView {
            tasks: install(self.tasks, t, handle),
            mutex_allocation: clear_row(self.mutex_allocation, t, self.mutexes.len()),
            semaphore_allocation: clear_row(self.semaphore_allocation, t, self.semaphores.len()),
            semaphore_need: clear_row(self.semaphore_need, t, self.semaphores.len()),
            ..self
        }
    }

    /// Why task slot `index` cannot be cleared, if it cannot.
    pub open spec fn remove_task_error(self, index: usize) -> Option<Error> {
        if index >= self.tasks.len() {
            Some(Error::InvalidArgument)
        } else if self.tasks[index as int] is None {
            Some(Error::NotFound)
        } else {
            None
        }
    }

    /// The table after the task in slot `index` has exited: the slot is empty,
    /// the rows of the matrices stay as they are.
    pub open spec fn remove_task(self, index: usize) -> TableView {
        TableView { tasks: self.tasks.update(index as int, None), ..self }
    }

    /// The table with a free mutex in the lowest empty mutex slot, or in a new
    /// one behind the others. No task holds the new mutex.
    pub open spec fn create_mutex(self, blocking: bool) -> TableView {
        let id = first_empty(self.mutexes);
        TableView {
            mutexes: install(self.mutexes, id, MutexView::fresh(blocking)),
            mutex_allocation: clear_column(self.mutex_allocation, id),
            ..self
        }
    }

    /// The table with a semaphore of `units` free units in the lowest empty
    /// semaphore slot, or in a new one behind the others. No task holds a unit
    /// of the new semaphore or waits for one.
    pub open spec fn create_semaphore(self, units: usize) -> TableView {
        let id = first_empty(self.semaphores);
        TableView {
            semaphores: install(self.semaphores, id, SemaphoreView::fresh(units as int)),
            semaphore_allocation: clear_column(self.semaphore_allocation, id),
            semaphore_need: clear_column(self.semaphore_need, id),
            semaphore_available: if id < self.semaphore_available.len() {
                self.semaphore_available.update(id, units as int)
            } else {
                self.semaphore_available.push(units as int)
            },
            ..self
        }
    }

    /// The table with a condition variable without waiters in the lowest empty
    /// slot, or in a new one behind the others.
    pub open spec fn create_condvar(self) -> TableView {
        TableView {
            condvars: install(self.condvars, first_empty(self.condvars), Seq::empty()),
            ..self
        }
    }

    /// Why slot `id` of a list of `len` slots cannot be closed, if it cannot.
    pub open spec fn close_error(len: nat, taken: bool, id: usize) -> Option<Error> {
        if id >= len {
            Some(Error::InvalidArgument)
        } else if !taken {
            Some(Error::NotFound)
        } else {
            None
        }
    }

    /// The table with mutex slot `id` empty.
    pub open spec fn close_mutex(self, id: usize) -> TableView {
        TableView { mutexes: self.mutexes.update(id as int, None), ..self }
    }

    /// The table with semaphore slot `id` empty.
    pub open spec fn close_semaphore(self, id: usize) -> TableView {
        TableView { semaphores: self.semaphores.update(id as int, None), ..self }
    }

    /// The table with condition variable slot `id` empty.
    pub open spec fn close_condvar(self, id: usize) -> TableView {
        TableView { condvars: self.condvars.update(id as int, None), ..self }
    }

    /// Whether the detector finds it safe that task `t` asks for mutex `m`.
    /// The work vector says which mutexes are free; the request matrix is the
    /// allocation matrix with one unit more for `t` at `m`.
    pub open spec fn mutex_request_is_safe(self, t: int, m: int) -> bool {
        safe(
            bump(self.mutex_allocation, t, m),
            self.mutex_allocation,
            mutex_work(self.mutexes),
            idle(self.tasks),
        )
    }

    /// Whether the detector finds it safe that task `t` asks for a unit of
    /// semaphore `s`. The work vector is the vector of free units; the request
    /// matrix is the need matrix with one unit more for `t` at `s`.
    pub open spec fn semaphore_request_is_safe(self, t: int, s: int) -> bool {
        safe(
            bump(self.semaphore_need, t, s),
            self.semaphore_allocation,
            self.semaphore_available,
            idle(self.tasks),
        )
    }

    /// The table with the detector switched on or off.
    pub open spec fn set_detection(self, on: bool) -> TableView {
        TableView { deadlock_detect: on, ..self }
    }

    /// One attempt of the task `current`, known as `t`, to take mutex `id`,
    /// with the accounting of a success.
    pub open spec fn mutex_take(self, t: int, current: usize, id: usize) -> (TableView, Outcome) {
        let mutex = self.mutexes[id as int]->0;
        let next = TableView {
            mutexes: self.mutexes.update(id as int, Some(mutex.lock(current))),
            ..self
        };
        match mutex.attempt() {
            Acquire::Acquired => (
                TableView { mutex_allocation: bump(self.mutex_allocation, t, id as int), ..next },
                Outcome::done(0),
            ),
            Acquire::Queued => (next, Outcome::pause(Step::Block)),
            Acquire::Retry => (next, Outcome::pause(Step::Yield)),
        }
    }

    /// The task `current` asks for mutex `id`.
    pub open spec fn mutex_lock(self, current: usize, id: usize) -> (TableView, Outcome) {
        let t = self.task_index(current);
        if !self.runs(current) || !self.has_mutex(id) {
            (self, Outcome::done(-1))
        } else if self.mutex_allocation[t][id as int] >= isize::MAX {
            (self, Outcome::done(-1))
        } else if self.deadlock_detect && !self.mutex_request_is_safe(t, id as int) {
            (self, Outcome::done(-0xDEAD))
        } else {
            self.mutex_take(t, current, id)
        }
    }

    /// The task `current` goes on with its call for mutex `id` after it was
    /// told to yield or to block. A mutex that queues its waiters has been
    /// handed to the caller by then, and the acquisition is accounted for; a
    /// mutex that does not is tried again.
    pub open spec fn mutex_lock_resume(self, current: usize, id: usize) -> (TableView, Outcome) {
        let t = self.task_index(current);
        if !self.runs(current) || !self.has_mutex(id) {
            (self, Outcome::done(-1))
        } else if self.mutex_allocation[t][id as int] >= isize::MAX {
            (self, Outcome::done(-1))
        } else if self.mutexes[id as int]->0.blocking {
            (
                TableView { mutex_allocation: bump(self.mutex_allocation, t, id as int), ..self },
                Outcome::done(0),
            )
        } else {
            self.mutex_take(t, current, id)
        }
    }

    /// The task `current` releases mutex `id`.
    pub open spec fn mutex_unlock(self, current: usize, id: usize) -> (TableView, Outcome) {
        let t = self.task_index(current);
        if !self.runs(current) || !self.has_mutex(id) {
            (self, Outcome::done(-1))
        } else if self.mutex_allocation[t][id as int] <= 0 {
            (self, Outcome::done(-1))
        } else {
            let mutex = self.mutexes[id as int]->0;
            (
                TableView {
                    mutexes: self.mutexes.update(id as int, Some(mutex.unlock())),
                    mutex_allocation: drop_unit(self.mutex_allocation, t, id as int),
                    ..self
                },
                Outcome::released(first_waiter(mutex.waiters)),
            )
        }
    }

    /// The task `current` gives a unit of semaphore `id` back.
    pub open spec fn semaphore_up(self, current: usize, id: usize) -> (TableView, Outcome) {
        let t = self.task_index(current);
        if !self.runs(current) || !self.has_semaphore(id) {
            (self, Outcome::done(-1))
        } else if self.semaphore_allocation[t][id as int] <= isize::MIN
            || self.semaphore_available[id as int] >= isize::MAX
            || self.semaphores[id as int]->0.count >= isize::MAX {
            (self, Outcome::done(-1))
        } else {
            let semaphore = self.semaphores[id as int]->0;
            (
                TableView {
                    semaphores: self.semaphores.update(id as int, Some(semaphore.up())),
                    semaphore_allocation: drop_unit(self.semaphore_allocation, t, id as int),
                    semaphore_available: self.semaphore_available.update(
                        id as int,
                        self.semaphore_available[id as int] + 1,
                    ),
                    ..self
                },
                Outcome::released(semaphore.woken()),
            )
        }
    }

    /// The table after task `t` has got a unit of semaphore `id`: one unit
    /// more for `t`, one free unit less.
    pub open spec fn semaphore_granted(self, t: int, id: usize) -> TableView {
        TableView {
            semaphore_allocation: bump(self.semaphore_allocation, t, id as int),
            semaphore_available: self.semaphore_available.update(
                id as int,
                self.semaphore_available[id as int] - 1,
            ),
            ..self
        }
    }

    /// The task `current` asks for a unit of semaphore `id`.
    pub open spec fn semaphore_down(self, current: usize, id: usize) -> (TableView, Outcome) {
        let t = self.task_index(current);
        if !self.runs(current) || !self.has_semaphore(id) {
            (self, Outcome::done(-1))
        } else if self.semaphore_need[t][id as int] >= isize::MAX
            || self.semaphore_allocation[t][id as int] >= isize::MAX
            || self.semaphore_available[id as int] <= isize::MIN
            || self.semaphores[id as int]->0.count <= isize::MIN {
            (self, Outcome::done(-1))
        } else if self.deadlock_detect && !self.semaphore_request_is_safe(t, id as int) {
            (self, Outcome::done(-0xDEAD))
        } else {
            let semaphore = self.semaphores[id as int]->0;
            let next = TableView {
                semaphores: self.semaphores.update(id as int, Some(semaphore.down(current))),
                ..self
            };
            if semaphore.attempt() == Acquire::Acquired {
                (next.semaphore_granted(t, id), Outcome::done(0))
            } else {
                (
                    TableView { semaphore_need: bump(self.semaphore_need, t, id as int), ..next },
                    Outcome::pause(Step::Block),
                )
            }
        }
    }

    /// The task `current` goes on with its call for a unit of semaphore `id`
    /// after it was woken: it has the unit and waits no longer.
    pub open spec fn semaphore_down_resume(self, current: usize, id: usize) -> (
        TableView,
        Outcome,
    ) {
        let t = self.task_index(current);
        if !self.runs(current) || !self.has_semaphore(id) {
            (self, Outcome::done(-1))
        } else if self.semaphore_need[t][id as int] <= isize::MIN
            || self.semaphore_allocation[t][id as int] >= isize::MAX
            || self.semaphore_available[id as int] <= isize::MIN {
            (self, Outcome::done(-1))
        } else {
            (
                TableView {
                    semaphore_need: drop_unit(self.semaphore_need, t, id as int),
                    ..self.semaphore_granted(t, id)
                },
                Outcome::done(0),
            )
        }
    }

    /// Condition variable `id` is signalled.
    pub open spec fn condvar_signal(self, id: usize) -> (TableView, Outcome) {
        if !self.has_condvar(id) {
            (self, Outcome::done(-1))
        } else {
            let waiters = self.condvars[id as int]->0;
            (
                TableView {
                    condvars: self.condvars.update(id as int, Some(later_waiters(waiters))),
                    ..self
                },
                Outcome::released(first_waiter(waiters)),
            )
        }
    }

    /// The task `current` releases mutex `mutex_id` and waits on condition
    /// variable `condvar_id`, in one step.
    pub open spec fn condvar_wait(self, current: usize, condvar_id: usize, mutex_id: usize) -> (
        TableView,
        Outcome,
    ) {
        if !self.has_condvar(condvar_id) || !self.has_mutex(mutex_id) {
            (self, Outcome::done(-1))
        } else {
            let waiters = self.condvars[condvar_id as int]->0;
            let mutex = self.mutexes[mutex_id as int]->0;
            (
                TableView {
                    condvars: self.condvars.update(condvar_id as int, Some(waiters.push(current))),
                    mutexes: self.mutexes.update(mutex_id as int, Some(mutex.unlock())),
                    ..self
                },
                Outcome { step: Step::Block, wake: first_waiter(mutex.waiters), timer: None },
            )
        }
    }

    /// The task `current` goes on with its wait after it was signalled: it
    /// tries to take mutex `id` again. Nothing is accounted for.
    pub open spec fn condvar_wait_resume(self, current: usize, id: usize) -> (TableView, Outcome) {
        if !self.has_mutex(id) {
            (self, Outcome::done(-1))
        } else {
            let mutex = self.mutexes[id as int]->0;
            (
                TableView {
                    mutexes: self.mutexes.update(id as int, Some(mutex.lock(current))),
                    ..self
                },
                match mutex.attempt() {
                    Acquire::Acquired => Outcome::done(0),
                    Acquire::Queued => Outcome::pause(Step::Block),
                    Acquire::Retry => Outcome::pause(Step::Yield),
                },
            )
        }
    }
}

} // verus!
