//! A slot that is given to a new resource starts clean: what its last occupant
//! left in the matrices is gone.

use crate::model::TableView;
use crate::primitive::{MutexView, SemaphoreView};
use crate::slots::{first_empty, lemma_first_empty, lemma_first_empty_is};
use vstd::prelude::*;

verus! {

/// A new mutex gets the lowest empty slot. No task holds it, whatever the
/// last mutex in that slot has left behind, and the accounting of the other
/// mutexes is as before.
pub proof fn lemma_new_mutex_is_unheld(table: TableView, blocking: bool)
    requires
        table.wf(),
    ensures
        ({
            let id = first_empty(table.mutexes);
            let next = table.create_mutex(blocking);
            &&& 0 <= id <= table.mutexes.len()
            &&& forall|m: int| 0 <= m < id ==> (#[trigger] table.mutexes[m]) is Some
            &&& id < table.mutexes.len() ==> table.mutexes[id] is None
            &&& next.mutexes[id] == Some(MutexView::fresh(blocking))
            &&& forall|t: int|
                0 <= t < table.tasks.len() ==> (#[trigger] next.mutex_allocation[t])[id] == 0
            &&& forall|t: int, m: int|
                0 <= t < table.tasks.len() && 0 <= m < table.mutexes.len() && m != id ==> (
                #[trigger] next.mutex_allocation[t])[m] == (#[trigger] table.mutex_allocation[t][m])
        }),
{
    lemma_first_empty(table.mutexes);
}

/// A new semaphore gets the lowest empty slot. It has the units it was
/// created with, and no task holds or awaits one, whatever the last semaphore
/// in that slot has left behind.
pub proof fn lemma_new_semaphore_is_unheld(table: TableView, units: usize)
    requires
        table.wf(),
    ensures
        ({
            let id = first_empty(table.semaphores);
            let next = table.create_semaphore(units);
            &&& 0 <= id <= table.semaphores.len()
            &&& forall|s: int| 0 <= s < id ==> (#[trigger] table.semaphores[s]) is Some
            &&& id < table.semaphores.len() ==> table.semaphores[id] is None
            &&& next.semaphores[id] == Some(SemaphoreView::fresh(units as int))
            &&& next.semaphore_available[id] == units
            &&& forall|t: int|
                0 <= t < table.tasks.len() ==> (#[trigger] next.semaphore_allocation[t])[id] == 0
            &&& forall|t: int|
                0 <= t < table.tasks.len() ==> (#[trigger] next.semaphore_need[t])[id] == 0
        }),
{
    lemma_first_empty(table.semaphores);
}

/// A mutex that is created right after mutex `id` was closed gets slot `id`,
/// or a lower slot that was empty already.
pub proof fn lemma_closed_mutex_slot_is_reused(table: TableView, id: usize)
    requires
        table.wf(),
        table.has_mutex(id),
    ensures
        first_empty(table.close_mutex(id).mutexes) == (if first_empty(table.mutexes) < id {
            first_empty(table.mutexes)
        } else {
            id as int
        }),
{
    let closed = table.close_mutex(id).mutexes;
    lemma_first_empty(table.mutexes);
    let lowest = if first_empty(table.mutexes) < id {
        first_empty(table.mutexes)
    } else {
        id as int
    };
    assert forall|i: int| 0 <= i < lowest implies (#[trigger] closed[i]) is Some by {
        assert(table.mutexes[i] is Some);
    }
    lemma_first_empty_is(closed, lowest);
}

/// A semaphore that is created right after semaphore `id` was closed gets
/// slot `id`, or a lower slot that was empty already.
pub proof fn lemma_closed_semaphore_slot_is_reused(table: TableView, id: usize)
    requires
        table.wf(),
        table.has_semaphore(id),
    ensures
        first_empty(table.close_semaphore(id).semaphores) == (if first_empty(table.semaphores)
            < id {
            first_empty(table.semaphores)
        } else {
            id as int
        }),
{
    let closed = table.close_semaphore(id).semaphores;
    lemma_first_empty(table.semaphores);
    let lowest = if first_empty(table.semaphores) < id {
        first_empty(table.semaphores)
    } else {
        id as int
    };
    assert forall|i: int| 0 <= i < lowest implies (#[trigger] closed[i]) is Some by {
        assert(table.semaphores[i] is Some);
    }
    lemma_first_empty_is(closed, lowest);
}

/// A condition variable that is created right after condition variable `id`
/// was closed gets slot `id`, or a lower slot that was empty already.
pub proof fn lemma_closed_condvar_slot_is_reused(table: TableView, id: usize)
    requires
        table.wf(),
        table.has_condvar(id),
    ensures
        first_empty(table.close_condvar(id).condvars) == (if first_empty(table.condvars) < id {
            first_empty(table.condvars)
        } else {
            id as int
        }),
{
    let closed = table.close_condvar(id).condvars;
    lemma_first_empty(table.condvars);
    let lowest = if first_empty(table.condvars) < id {
        first_empty(table.condvars)
    } else {
        id as int
    };
    assert forall|i: int| 0 <= i < lowest implies (#[trigger] closed[i]) is Some by {
        assert(table.condvars[i] is Some);
    }
    lemma_first_empty_is(closed, lowest);
}

} // verus!
