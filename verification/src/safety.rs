//! The two questions that the system calls ask the detector, answered on a
//! snapshot of the table, and what the answers mean for the table.

use crate::detector::{
    all_done, index_order, int_rows, ints, is_count, settle, Snapshot, Verdict,
};
use crate::model::{bump, idle, mutex_work, TableView};
use crate::resource::{counts, lemma_matrix_shape, matrix, views, ResourceTable};
use crate::safe_state::{
    is_safe_sequence, lemma_safe_means_a_safe_sequence, lemma_starved_task_never_finishes,
    lemma_verdict_in_any_order, visits_all,
};
use crate::slots::nonnegative;
use vstd::prelude::*;

verus! {

/// A copy of `row` in the width in which the detector adds up.
fn widen_row(row: &Vec<isize>) -> (wide: Vec<i128>)
    ensures
        ints(wide@) == counts(row@),
        wide.len() == row.len(),
{
    let mut wide: Vec<i128> = Vec::new();
    let mut j: usize = 0;
    while j < row.len()
        invariant
            j <= row.len(),
            wide.len() == j,
            forall|i: int| 0 <= i < j ==> #[trigger] wide[i] == row[i],
        decreases row.len() - j,
    {
        wide.push(row[j] as i128);
        j += 1;
    }
    proof {
        assert(ints(wide@) =~= counts(row@));
    }
    wide
}

/// A copy of `m` in the width in which the detector adds up.
fn widen(m: &Vec<Vec<isize>>) -> (wide: Vec<Vec<i128>>)
    ensures
        int_rows(wide@) == matrix(m@),
        wide.len() == m.len(),
        forall|t: int| 0 <= t < m.len() ==> (#[trigger] wide[t]).len() == m[t].len(),
{
    let mut wide: Vec<Vec<i128>> = Vec::new();
    let mut t: usize = 0;
    while t < m.len()
        invariant
            t <= m.len(),
            wide.len() == t,
            forall|i: int| 0 <= i < t ==> ints(#[trigger] wide[i]@) == counts(m[i]@),
            forall|i: int| 0 <= i < t ==> (#[trigger] wide[i]).len() == m[i].len(),
        decreases m.len() - t,
    {
        wide.push(widen_row(&m[t]));
        t += 1;
    }
    proof {
        assert(int_rows(wide@) =~= matrix(m@));
    }
    wide
}

/// The finish flags with which the detector starts: an empty task slot counts
/// as finished.
fn idle_tasks(tasks: &Vec<Option<usize>>) -> (finish: Vec<bool>)
    ensures
        finish@ == idle(tasks@),
{
    let mut finish: Vec<bool> = Vec::new();
    let mut t: usize = 0;
    while t < tasks.len()
        invariant
            t <= tasks.len(),
            finish.len() == t,
            forall|i: int| 0 <= i < t ==> #[trigger] finish[i] == (tasks[i] is None),
        decreases tasks.len() - t,
    {
        finish.push(tasks[t].is_none());
        t += 1;
    }
    proof {
        assert(finish@ =~= idle(tasks@));
    }
    finish
}

/// Whether the detector refuses that task `task_id` asks for mutex `mutex_id`:
/// `true` says that granting the request could end in a deadlock.
///
/// The work vector has a one for each free mutex. The request matrix is a copy
/// of the allocation matrix with one unit more for the task at the mutex.
pub fn test_mutex_dead_lock(table: &ResourceTable, task_id: usize, mutex_id: usize) -> (deadlock:
    bool)
    requires
        table.wf(),
        task_id < table@.tasks.len(),
        mutex_id < table@.mutexes.len(),
    ensures
        deadlock == !table@.mutex_request_is_safe(task_id as int, mutex_id as int),
{
    proof {
        lemma_matrix_shape(
            table.mutex_allocation@,
            table.tasks@.len(),
            table.mutex_list@.len(),
        );
    }
    let mut work: Vec<i128> = Vec::new();
    let mut j: usize = 0;
    while j < table.mutex_list.len()
        invariant
            j <= table.mutex_list.len(),
            work.len() == j,
            forall|i: int|
                0 <= i < j ==> #[trigger] work[i] == mutex_work(views(table.mutex_list@))[i],
        decreases table.mutex_list.len() - j,
    {
        let free = match &table.mutex_list[j] {
            Some(mutex) => !mutex.locked(),
            None => false,
        };
        work.push(if free { 1 } else { 0 });
        j += 1;
    }
    let allocation = widen(&table.mutex_allocation);
    let mut request = widen(&table.mutex_allocation);
    proof {
        assert(int_rows(request@)[task_id as int][mutex_id as int] == matrix(
            table.mutex_allocation@,
        )[task_id as int][mutex_id as int]);
    }
    request[task_id][mutex_id] = request[task_id][mutex_id] + 1;
    let finish = idle_tasks(&table.tasks);
    proof {
        assert(ints(work@) =~= mutex_work(table@.mutexes));
        assert(int_rows(request@) =~= bump(
            table@.mutex_allocation,
            task_id as int,
            mutex_id as int,
        )) by {
            assert forall|t: int| 0 <= t < request.len() implies int_rows(request@)[t] =~= bump(
                table@.mutex_allocation,
                task_id as int,
                mutex_id as int,
            )[t] by {
                assert(int_rows(allocation@)[t] == matrix(table.mutex_allocation@)[t]);
            }
        }
        assert forall|t: int, j: int|
            0 <= t < finish.len() && 0 <= j < work.len() implies is_count(
            #[trigger] allocation[t][j] as int,
        ) by {
            assert(int_rows(allocation@)[t][j] == matrix(table.mutex_allocation@)[t][j]);
        }
    }
    let snapshot = Snapshot { work, request, allocation, finish };
    match snapshot.verdict() {
        Verdict::Safe => false,
        Verdict::Unsafe => true,
    }
}

/// Whether the detector refuses that task `task_id` asks for a unit of
/// semaphore `sem_id`: `true` says that granting the request could end in a
/// deadlock.
///
/// The work vector is the vector of free units. The request matrix is a copy
/// of the need matrix with one unit more for the task at the semaphore.
pub fn test_sem_dead_lock(table: &ResourceTable, task_id: usize, sem_id: usize) -> (deadlock: bool)
    requires
        table.wf(),
        task_id < table@.tasks.len(),
        sem_id < table@.semaphores.len(),
    ensures
        deadlock == !table@.semaphore_request_is_safe(task_id as int, sem_id as int),
{
    proof {
        lemma_matrix_shape(
            table.semaphore_allocation@,
            table.tasks@.len(),
            table.semaphore_list@.len(),
        );
        lemma_matrix_shape(table.semaphore_need@, table.tasks@.len(), table.semaphore_list@.len());
    }
    let work = widen_row(&table.semaphore_available);
    let allocation = widen(&table.semaphore_allocation);
    let mut request = widen(&table.semaphore_need);
    let ghost before = request@;
    proof {
        assert(int_rows(request@)[task_id as int][sem_id as int] == matrix(
            table.semaphore_need@,
        )[task_id as int][sem_id as int]);
    }
    request[task_id][sem_id] = request[task_id][sem_id] + 1;
    let finish = idle_tasks(&table.tasks);
    proof {
        assert(int_rows(request@) =~= bump(table@.semaphore_need, task_id as int, sem_id as int))
            by {
            assert forall|t: int| 0 <= t < request.len() implies int_rows(request@)[t] =~= bump(
                table@.semaphore_need,
                task_id as int,
                sem_id as int,
            )[t] by {
                assert(int_rows(before)[t] == matrix(table.semaphore_need@)[t]);
            }
        }
        assert forall|j: int| 0 <= j < work.len() implies is_count(#[trigger] work[j] as int) by {
            assert(ints(work@)[j] == counts(table.semaphore_available@)[j]);
        }
        assert forall|t: int, j: int|
            0 <= t < finish.len() && 0 <= j < work.len() implies is_count(
            #[trigger] allocation[t][j] as int,
        ) by {
            assert(int_rows(allocation@)[t][j] == matrix(table.semaphore_allocation@)[t][j]);
        }
    }
    let snapshot = Snapshot { work, request, allocation, finish };
    match snapshot.verdict() {
        Verdict::Safe => false,
        Verdict::Unsafe => true,
    }
}

/// The kind of resource that a request is for.
#[derive(Clone, Copy, Debug, PartialEq, Eq, Structural)]
pub enum ResourceKind {
    Mutex,
    Semaphore,
}

/// The verdict of the detector on the request of task `task_id` for the
/// resource in slot `resource_id` of the kind `kind`.
pub fn detect(
    table: &ResourceTable,
    task_id: usize,
    resource_id: usize,
    kind: ResourceKind,
) -> (verdict: Verdict)
    requires
        table.wf(),
        task_id < table@.tasks.len(),
        resource_id < (match kind {
            ResourceKind::Mutex => table@.mutexes.len(),
            ResourceKind::Semaphore => table@.semaphores.len(),
        }),
    ensures
        verdict == Verdict::Safe <==> (match kind {
            ResourceKind::Mutex => table@.mutex_request_is_safe(task_id as int, resource_id as int),
            ResourceKind::Semaphore => table@.semaphore_request_is_safe(
                task_id as int,
                resource_id as int,
            ),
        }),
{
    let deadlock = match kind {
        ResourceKind::Mutex => test_mutex_dead_lock(table, task_id, resource_id),
        ResourceKind::Semaphore => test_sem_dead_lock(table, task_id, resource_id),
    };
    if deadlock {
        Verdict::Unsafe
    } else {
        Verdict::Safe
    }
}

/// For a request for a mutex the order in which the scan visits the task
/// slots does not matter: a scan in any order that comes by every slot ends
/// with every task finished exactly if the request is safe.
pub proof fn lemma_mutex_verdict_in_any_order(table: TableView, t: int, m: int, order: Seq<int>)
    requires
        table.wf(),
        0 <= t < table.tasks.len(),
        0 <= m < table.mutexes.len(),
        visits_all(order, table.tasks.len()),
    ensures
        all_done(
            settle(
                bump(table.mutex_allocation, t, m),
                table.mutex_allocation,
                mutex_work(table.mutexes),
                idle(table.tasks),
                order,
            ).1,
        ) == table.mutex_request_is_safe(t, m),
{
    lemma_verdict_in_any_order(
        bump(table.mutex_allocation, t, m),
        table.mutex_allocation,
        mutex_work(table.mutexes),
        idle(table.tasks),
        order,
    );
}

/// A request for a mutex is safe exactly if the live tasks can finish one
/// after the other in some order, each with what it asks for in its row of the
/// request matrix.
pub proof fn lemma_mutex_request_is_safe_means(table: TableView, t: int, m: int)
    requires
        table.wf(),
        0 <= t < table.tasks.len(),
        0 <= m < table.mutexes.len(),
    ensures
        table.mutex_request_is_safe(t, m) <==> exists|schedule: Seq<int>|
            is_safe_sequence(
                bump(table.mutex_allocation, t, m),
                table.mutex_allocation,
                mutex_work(table.mutexes),
                idle(table.tasks),
                schedule,
            ),
{
    lemma_safe_means_a_safe_sequence(
        bump(table.mutex_allocation, t, m),
        table.mutex_allocation,
        mutex_work(table.mutexes),
        idle(table.tasks),
    );
}

/// While a live task holds a mutex that is taken, the detector finds every
/// request for a mutex unsafe, whoever asks and for whichever mutex: the row of
/// the holder in the request matrix has what it holds, the work vector has a
/// zero for the mutex, and nobody else can give the mutex back.
pub proof fn lemma_held_mutex_refuses_every_request(
    table: TableView,
    holder: int,
    held: int,
    t: int,
    m: int,
)
    requires
        table.wf(),
        0 <= holder < table.tasks.len(),
        table.tasks[holder] is Some,
        0 <= held < table.mutexes.len(),
        table.mutexes[held] is Some,
        table.mutexes[held]->0.locked,
        table.mutex_allocation[holder][held] >= 1,
        0 <= t < table.tasks.len(),
        0 <= m < table.mutexes.len(),
    ensures
        !table.mutex_request_is_safe(t, m),
{
    let request = bump(table.mutex_allocation, t, m);
    let order = index_order(table.tasks.len());
    assert forall|i: int| 0 <= i < table.tasks.len() implies (#[trigger] request[i])[held]
        >= table.mutex_allocation[i][held] by {}
    lemma_starved_task_never_finishes(
        request,
        table.mutex_allocation,
        mutex_work(table.mutexes),
        idle(table.tasks),
        order,
        holder,
        held,
    );
}

/// For a request for a unit of a semaphore the order in which the scan visits
/// the task slots does not matter either, as long as no task has given back
/// more units of a semaphore than it has taken.
pub proof fn lemma_semaphore_verdict_in_any_order(
    table: TableView,
    t: int,
    s: int,
    order: Seq<int>,
)
    requires
        table.wf(),
        nonnegative(table.semaphore_allocation),
        0 <= t < table.tasks.len(),
        0 <= s < table.semaphores.len(),
        visits_all(order, table.tasks.len()),
    ensures
        all_done(
            settle(
                bump(table.semaphore_need, t, s),
                table.semaphore_allocation,
                table.semaphore_available,
                idle(table.tasks),
                order,
            ).1,
        ) == table.semaphore_request_is_safe(t, s),
{
    lemma_verdict_in_any_order(
        bump(table.semaphore_need, t, s),
        table.semaphore_allocation,
        table.semaphore_available,
        idle(table.tasks),
        order,
    );
}

} // verus!
