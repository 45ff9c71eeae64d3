//! The resource slot table of a process: its task slots, its mutexes,
//! semaphores and condition variables, and the matrices that say which task
//! holds or awaits what.

use crate::error::Error;
use crate::model::{clear_row, TableView};
use crate::primitive::{Condvar, Mutex, Semaphore};
use crate::slots::{
    clear_column, first_empty, lemma_first_empty, lemma_first_empty_is, rectangular, zero_row,
};
use vstd::prelude::*;

verus! {

/// The entries of a vector of counts as mathematical integers.
pub open spec fn counts(v: Seq<isize>) -> Seq<int> {
    Seq::new(v.len(), |j: int| v[j] as int)
}

/// An accounting matrix as a mathematical value.
pub open spec fn matrix(m: Seq<Vec<isize>>) -> Seq<Seq<int>> {
    Seq::new(m.len(), |t: int| counts(m[t]@))
}

/// The slots of a list with each value replaced by its view.
pub open spec fn views<T: View>(slots: Seq<Option<T>>) -> Seq<Option<T::V>> {
    Seq::new(
        slots.len(),
        |i: int|
            match slots[i] {
                Some(value) => Some(value@),
                None => None,
            },
    )
}

/// The rows of a rectangular matrix all have its width.
pub proof fn lemma_matrix_shape(m: Seq<Vec<isize>>, rows: nat, width: nat)
    requires
        rectangular(matrix(m), rows, width),
    ensures
        m.len() == rows,
        forall|t: int| 0 <= t < rows ==> (#[trigger] m[t]).len() == width,
{
    assert forall|t: int| 0 <= t < rows implies (#[trigger] m[t]).len() == width by {
        assert(matrix(m)[t].len() == width);
    }
}

/// The first empty slot of a list is the first empty slot of its views.
pub proof fn lemma_first_empty_view<T: View>(slots: Seq<Option<T>>)
    ensures
        first_empty(views(slots)) == first_empty(slots),
{
    lemma_first_empty(slots);
    let id = first_empty(slots);
    assert forall|i: int| 0 <= i < id implies (#[trigger] views(slots)[i]) is Some by {
        assert(slots[i] is Some);
    }
    lemma_first_empty_is(views(slots), id);
}

/// The index of the first empty slot of `list`, or its length if every slot is
/// taken.
pub fn first_empty_slot<T>(list: &Vec<Option<T>>) -> (id: usize)
    ensures
        id == first_empty(list@),
        id <= list.len(),
{
    let mut id: usize = 0;
    while id < list.len() && list[id].is_some()
        invariant
            id <= list.len(),
            forall|i: int| 0 <= i < id ==> (#[trigger] list[i]) is Some,
        decreases list.len() - id,
    {
        id += 1;
    }
    proof {
        lemma_first_empty_is(list@, id as int);
    }
    id
}

/// Sets column `id` of `m` to zero in every row, or appends a column of zeros
/// where `id` is the width of `m`.
fn zero_column(m: &mut Vec<Vec<isize>>, id: usize)
    requires
        forall|t: int| 0 <= t < old(m).len() ==> id <= (#[trigger] old(m)[t]).len(),
    ensures
        matrix(final(m)@) == clear_column(matrix(old(m)@), id as int),
{
    let mut t: usize = 0;
    while t < m.len()
        invariant
            t <= m.len(),
            m.len() == old(m).len(),
            forall|i: int| 0 <= i < old(m).len() ==> id <= (#[trigger] old(m)[i]).len(),
            forall|i: int|
                0 <= i < t ==> counts(#[trigger] m[i]@) == clear_column(
                    matrix(old(m)@),
                    id as int,
                )[i],
            forall|i: int| t <= i < m.len() ==> #[trigger] m[i] == old(m)[i],
        decreases m.len() - t,
    {
        if id < m[t].len() {
            m[t][id] = 0;
        } else {
            m[t].push(0);
        }
        proof {
            assert(counts(m[t as int]@) =~= clear_column(matrix(old(m)@), id as int)[t as int]);
        }
        t += 1;
    }
    proof {
        assert(matrix(m@) =~= clear_column(matrix(old(m)@), id as int));
    }
}


/// Puts a row of `width` zeros at index `t` of `m`: in place of the row that
/// was there, or behind the last row where `t` is the number of rows.
fn zero_row_at(m: &mut Vec<Vec<isize>>, t: usize, width: usize)
    requires
        t <= old(m).len(),
    ensures
        matrix(final(m)@) == clear_row(matrix(old(m)@), t as int, width as nat),
{
    let row: Vec<isize> = vec![0isize; width];
    assert(counts(row@) =~= zero_row(width as nat));
    if t < m.len() {
        m[t] = row;
    } else {
        m.push(row);
    }
    proof {
        assert(matrix(m@) =~= clear_row(matrix(old(m)@), t as int, width as nat));
    }
}

/// The resource slot table of one process. It is made by [`ResourceTable::new`]
/// and changed by the functions of this library only, which keep it well
/// formed.
pub struct ResourceTable {
    /// The task slots: the handle of the task in each, or nothing where the
    /// task has exited.
    pub(crate) tasks: Vec<Option<usize>>,
    pub(crate) mutex_list: Vec<Option<Mutex>>,
    pub(crate) semaphore_list: Vec<Option<Semaphore>>,
    pub(crate) condvar_list: Vec<Option<Condvar>>,
    /// By task slot and mutex slot: how often the task holds the mutex.
    pub(crate) mutex_allocation: Vec<Vec<isize>>,
    /// By task slot and semaphore slot: the units that the task holds.
    pub(crate) semaphore_allocation: Vec<Vec<isize>>,
    /// By task slot and semaphore slot: the units that the task waits for.
    pub(crate) semaphore_need: Vec<Vec<isize>>,
    /// The free units of each semaphore.
    pub(crate) semaphore_available: Vec<isize>,
    /// Whether the detector is asked before an acquisition.
    pub(crate) deadlock_detect: bool,
}

impl View for ResourceTable {
    type V = TableView;

    open(crate) spec fn view(&self) -> TableView {
        TableView {
            tasks: self.tasks@,
            mutexes: views(self.mutex_list@),
            semaphores: views(self.semaphore_list@),
            condvars: views(self.condvar_list@),
            mutex_allocation: matrix(self.mutex_allocation@),
            semaphore_allocation: matrix(self.semaphore_allocation@),
            semaphore_need: matrix(self.semaphore_need@),
            semaphore_available: counts(self.semaphore_available@),
            deadlock_detect: self.deadlock_detect,
        }
    }
}

impl ResourceTable {
    /// The table is well formed when its view is.
    pub open spec fn wf(&self) -> bool {
        self@.wf()
    }

    /// The table of a new process: no slots, and the detector switched on.
    pub fn new() -> (table: Self)
        ensures
            table.wf(),
            table@ == TableView::empty(),
    {
        let table = ResourceTable {
            tasks: Vec::new(),
            mutex_list: Vec::new(),
            semaphore_list: Vec::new(),
            condvar_list: Vec::new(),
            mutex_allocation: Vec::new(),
            semaphore_allocation: Vec::new(),
            semaphore_need: Vec::new(),
            semaphore_available: Vec::new(),
            deadlock_detect: true,
        };
        proof {
            assert(table@.mutexes =~= Seq::empty());
            assert(table@.semaphores =~= Seq::empty());
            assert(table@.condvars =~= Seq::empty());
            assert(table@.mutex_allocation =~= Seq::empty());
            assert(table@.semaphore_allocation =~= Seq::empty());
            assert(table@.semaphore_need =~= Seq::empty());
            assert(table@.semaphore_available =~= Seq::empty());
        }
        table
    }

    /// The task slots.
    pub fn tasks(&self) -> (tasks: &Vec<Option<usize>>)
        ensures
            tasks@ == self@.tasks,
    {
        &self.tasks
    }

    /// The mutex slots.
    pub fn mutex_list(&self) -> (list: &Vec<Option<Mutex>>)
        ensures
            views(list@) == self@.mutexes,
    {
        &self.mutex_list
    }

    /// The semaphore slots.
    pub fn semaphore_list(&self) -> (list: &Vec<Option<Semaphore>>)
        ensures
            views(list@) == self@.semaphores,
    {
        &self.semaphore_list
    }

    /// The slots of the condition variables.
    pub fn condvar_list(&self) -> (list: &Vec<Option<Condvar>>)
        ensures
            views(list@) == self@.condvars,
    {
        &self.condvar_list
    }

    /// By task slot and mutex slot: how often the task holds the mutex.
    pub fn mutex_allocation(&self) -> (allocation: &Vec<Vec<isize>>)
        ensures
            matrix(allocation@) == self@.mutex_allocation,
    {
        &self.mutex_allocation
    }

    /// By task slot and semaphore slot: the units that the task holds.
    pub fn semaphore_allocation(&self) -> (allocation: &Vec<Vec<isize>>)
        ensures
            matrix(allocation@) == self@.semaphore_allocation,
    {
        &self.semaphore_allocation
    }

    /// By task slot and semaphore slot: the units that the task waits for.
    pub fn semaphore_need(&self) -> (need: &Vec<Vec<isize>>)
        ensures
            matrix(need@) == self@.semaphore_need,
    {
        &self.semaphore_need
    }

    /// The free units of each semaphore.
    pub fn semaphore_available(&self) -> (available: &Vec<isize>)
        ensures
            counts(available@) == self@.semaphore_available,
    {
        &self.semaphore_available
    }

    /// Whether the detector is asked before an acquisition.
    pub fn deadlock_detect(&self) -> (on: bool)
        ensures
            on == self@.deadlock_detect,
    {
        self.deadlock_detect
    }

    /// Creates a mutex in the lowest empty slot, or in a new one, and returns
    /// the index of the slot. The column of the slot is zero afterwards,
    /// whatever a mutex that was there before has left in it. Only a table of
    /// `isize::MAX` mutexes has no room.
    pub fn create_mutex(&mut self, blocking: bool) -> (created: Result<usize, Error>)
        requires
            old(self).wf(),
        ensures
            final(self).wf(),
            match created {
                Ok(id) => {
                    &&& id == first_empty(old(self)@.mutexes)
                    &&& final(self)@ == old(self)@.create_mutex(blocking)
                },
                Err(error) => error == Error::ResourceExhausted && final(self)@ == old(self)@,
            },
            created is Ok <==> first_empty(old(self)@.mutexes) < isize::MAX,
    {
        let id = first_empty_slot(&self.mutex_list);
        proof {
            lemma_first_empty_view(self.mutex_list@);
            lemma_matrix_shape(
                self.mutex_allocation@,
                self.tasks@.len(),
                self.mutex_list@.len(),
            );
        }
        if id >= isize::MAX as usize {
            return Err(Error::ResourceExhausted);
        }
        let mutex = Mutex::new(blocking);
        if id < self.mutex_list.len() {
            self.mutex_list[id] = Some(mutex);
        } else {
            self.mutex_list.push(Some(mutex));
        }
        zero_column(&mut self.mutex_allocation, id);
        proof {
            assert(self@.mutexes =~= old(self)@.create_mutex(blocking).mutexes);
        }
        Ok(id)
    }

    /// Creates a semaphore of `units` free units in the lowest empty slot, or
    /// in a new one, and returns the index of the slot. The column of the slot
    /// is zero afterwards in both matrices. More units than `isize::MAX` are
    /// refused; only a table of `isize::MAX` semaphores has no room.
    pub fn create_semaphore(&mut self, units: usize) -> (created: Result<usize, Error>)
        requires
            old(self).wf(),
        ensures
            final(self).wf(),
            match created {
                Ok(id) => {
                    &&& id == first_empty(old(self)@.semaphores)
                    &&& final(self)@ == old(self)@.create_semaphore(units)
                },
                Err(error) => final(self)@ == old(self)@ && error == (if units > isize::MAX {
                    Error::InvalidArgument
                } else {
                    Error::ResourceExhausted
                }),
            },
            created is Ok <==> units <= isize::MAX && first_empty(old(self)@.semaphores)
                < isize::MAX,
    {
        if units > isize::MAX as usize {
            return Err(Error::InvalidArgument);
        }
        let id = first_empty_slot(&self.semaphore_list);
        proof {
            lemma_first_empty_view(self.semaphore_list@);
            lemma_matrix_shape(
                self.semaphore_allocation@,
                self.tasks@.len(),
                self.semaphore_list@.len(),
            );
            lemma_matrix_shape(self.semaphore_need@, self.tasks@.len(), self.semaphore_list@.len());
        }
        if id >= isize::MAX as usize {
            return Err(Error::ResourceExhausted);
        }
        let semaphore = Semaphore::new(units);
        if id < self.semaphore_list.len() {
            self.semaphore_list[id] = Some(semaphore);
            self.semaphore_available[id] = units as isize;
        } else {
            self.semaphore_list.push(Some(semaphore));
            self.semaphore_available.push(units as isize);
        }
        zero_column(&mut self.semaphore_allocation, id);
        zero_column(&mut self.semaphore_need, id);
        proof {
            let goal = old(self)@.create_semaphore(units);
            assert(self@.semaphores =~= goal.semaphores);
            assert(self@.semaphore_available =~= goal.semaphore_available);
        }
        Ok(id)
    }

    /// Creates a condition variable without waiters in the lowest empty slot,
    /// or in a new one, and returns the index of the slot. Only a table of
    /// `isize::MAX` condition variables has no room.
    pub fn create_condvar(&mut self) -> (created: Result<usize, Error>)
        requires
            old(self).wf(),
        ensures
            final(self).wf(),
            match created {
                Ok(id) => {
                    &&& id == first_empty(old(self)@.condvars)
                    &&& final(self)@ == old(self)@.create_condvar()
                },
                Err(error) => error == Error::ResourceExhausted && final(self)@ == old(self)@,
            },
            created is Ok <==> first_empty(old(self)@.condvars) < isize::MAX,
    {
        let id = first_empty_slot(&self.condvar_list);
        proof {
            lemma_first_empty_view(self.condvar_list@);
        }
        if id >= isize::MAX as usize {
            return Err(Error::ResourceExhausted);
        }
        let condvar = Condvar::new();
        if id < self.condvar_list.len() {
            self.condvar_list[id] = Some(condvar);
        } else {
            self.condvar_list.push(Some(condvar));
        }
        proof {
            assert(self@.condvars =~= old(self)@.create_condvar().condvars);
        }
        Ok(id)
    }

    /// Empties mutex slot `id`. The slot can be given to a new mutex; the
    /// accounting of the old one stays until then.
    pub fn close_mutex(&mut self, id: usize) -> (closed: Result<(), Error>)
        requires
            old(self).wf(),
        ensures
            final(self).wf(),
            match closed {
                Ok(()) => final(self)@ == old(self)@.close_mutex(id),
                Err(error) => final(self)@ == old(self)@,
            },
            closed == (match TableView::close_error(
                old(self)@.mutexes.len(),
                old(self)@.has_mutex(id),
                id,
            ) {
                Some(error) => Err(error),
                None => Ok(()),
            }),
    {
        if id >= self.mutex_list.len() {
            return Err(Error::InvalidArgument);
        }
        if self.mutex_list[id].is_none() {
            return Err(Error::NotFound);
        }
        self.mutex_list[id] = None;
        proof {
            assert(self@.mutexes =~= old(self)@.close_mutex(id).mutexes);
        }
        Ok(())
    }

    /// Empties semaphore slot `id`.
    pub fn close_semaphore(&mut self, id: usize) -> (closed: Result<(), Error>)
        requires
            old(self).wf(),
        ensures
            final(self).wf(),
            match closed {
                Ok(()) => final(self)@ == old(self)@.close_semaphore(id),
                Err(error) => final(self)@ == old(self)@,
            },
            closed == (match TableView::close_error(
                old(self)@.semaphores.len(),
                old(self)@.has_semaphore(id),
                id,
            ) {
                Some(error) => Err(error),
                None => Ok(()),
            }),
    {
        if id >= self.semaphore_list.len() {
            return Err(Error::InvalidArgument);
        }
        if self.semaphore_list[id].is_none() {
            return Err(Error::NotFound);
        }
        self.semaphore_list[id] = None;
        proof {
            assert(self@.semaphores =~= old(self)@.close_semaphore(id).semaphores);
        }
        Ok(())
    }

    /// Empties condition variable slot `id`.
    pub fn close_condvar(&mut self, id: usize) -> (closed: Result<(), Error>)
        requires
            old(self).wf(),
        ensures
            final(self).wf(),
            match closed {
                Ok(()) => final(self)@ == old(self)@.close_condvar(id),
                Err(error) => final(self)@ == old(self)@,
            },
            closed == (match TableView::close_error(
                old(self)@.condvars.len(),
                old(self)@.has_condvar(id),
                id,
            ) {
                Some(error) => Err(error),
                None => Ok(()),
            }),
    {
        if id >= self.condvar_list.len() {
            return Err(Error::InvalidArgument);
        }
        if self.condvar_list[id].is_none() {
            return Err(Error::NotFound);
        }
        self.condvar_list[id] = None;
        proof {
            assert(self@.condvars =~= old(self)@.close_condvar(id).condvars);
        }
        Ok(())
    }

    /// Puts the task `handle` into the lowest empty task slot, or into a new
    /// one, and returns the index of the slot. The row of the slot is zero in
    /// every matrix afterwards.
    pub fn add_task(&mut self, handle: usize) -> (index: usize)
        requires
            old(self).wf(),
        ensures
            final(self).wf(),
            index == first_empty(old(self)@.tasks),
            final(self)@ == old(self)@.add_task(handle),
    {
        let index = first_empty_slot(&self.tasks);
        proof {
            lemma_matrix_shape(
                self.mutex_allocation@,
                self.tasks@.len(),
                self.mutex_list@.len(),
            );
            lemma_matrix_shape(
                self.semaphore_allocation@,
                self.tasks@.len(),
                self.semaphore_list@.len(),
            );
            lemma_matrix_shape(self.semaphore_need@, self.tasks@.len(), self.semaphore_list@.len());
        }
        if index < self.tasks.len() {
            self.tasks[index] = Some(handle);
        } else {
            self.tasks.push(Some(handle));
        }
        zero_row_at(&mut self.mutex_allocation, index, self.mutex_list.len());
        zero_row_at(&mut self.semaphore_allocation, index, self.semaphore_list.len());
        zero_row_at(&mut self.semaphore_need, index, self.semaphore_list.len());
        index
    }

    /// Empties task slot `index` when its task has exited. The rows of the
    /// slot stay as they are, and the indices of the other tasks do not move;
    /// the detector counts the slot as finished from now on.
    pub fn remove_task(&mut self, index: usize) -> (removed: Result<(), Error>)
        requires
            old(self).wf(),
        ensures
            final(self).wf(),
            match removed {
                Ok(()) => final(self)@ == old(self)@.remove_task(index),
                Err(error) => final(self)@ == old(self)@,
            },
            removed == (match old(self)@.remove_task_error(index) {
                Some(error) => Err(error),
                None => Ok(()),
            }),
    {
        if index >= self.tasks.len() {
            return Err(Error::InvalidArgument);
        }
        if self.tasks[index].is_none() {
            return Err(Error::NotFound);
        }
        self.tasks[index] = None;
        Ok(())
    }
}

} // verus!
