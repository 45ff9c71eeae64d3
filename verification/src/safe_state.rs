//! What the verdict of the detector means, as long as no task holds a negative
//! number of units: it does not depend on the order in which the scan visits
//! the tasks, and it is `Safe` exactly if the tasks can finish one after the
//! other in some order.

use crate::detector::{
    all_done, first_ready, index_order, lemma_first_ready, lemma_pending_finish, pending, plus,
    ready, safe, settle,
};
use crate::slots::nonnegative;
use vstd::prelude::*;

verus! {

/// The matrices have one row per task and one entry per resource.
pub open spec fn shaped(
    request: Seq<Seq<int>>,
    allocation: Seq<Seq<int>>,
    work: Seq<int>,
    finish: Seq<bool>,
) -> bool {
    &&& request.len() == finish.len()
    &&& allocation.len() == finish.len()
    &&& forall|t: int| 0 <= t < finish.len() ==> (#[trigger] request[t]).len() == work.len()
    &&& forall|t: int| 0 <= t < finish.len() ==> (#[trigger] allocation[t]).len() == work.len()
}

/// The scan order `order` comes by task `t`.
pub open spec fn visits(order: Seq<int>, t: int) -> bool {
    exists|k: int| 0 <= k < order.len() && #[trigger] order[k] == t
}

/// `order` names task slots only, and each of the `n` slots at least once. A
/// permutation of the slots is such an order.
pub open spec fn visits_all(order: Seq<int>, n: nat) -> bool {
    &&& forall|k: int| 0 <= k < order.len() ==> 0 <= #[trigger] order[k] < n
    &&& forall|t: int| 0 <= t < n ==> #[trigger] visits(order, t)
}

/// No task is ready: the scan has come to rest.
pub open spec fn at_rest(request: Seq<Seq<int>>, work: Seq<int>, finish: Seq<bool>) -> bool {
    forall|t: int| 0 <= t < finish.len() ==> !ready(request, work, finish, t)
}

/// Every task that has finished in `finish` has finished in `later`.
pub open spec fn within(finish: Seq<bool>, later: Seq<bool>) -> bool {
    &&& finish.len() == later.len()
    &&& forall|t: int| 0 <= t < finish.len() && finish[t] ==> later[t]
}

/// The units of resource `j` that the first `n` tasks give back between
/// `finish` and `later`: the sum of what those hold that have finished in
/// `later` and not in `finish`.
pub open spec fn gain(
    allocation: Seq<Seq<int>>,
    finish: Seq<bool>,
    later: Seq<bool>,
    j: int,
    n: nat,
) -> int
    decreases n,
{
    if n == 0 {
        0
    } else {
        let t = n - 1;
        gain(allocation, finish, later, j, t as nat) + (if later[t] && !finish[t] {
            allocation[t][j]
        } else {
            0
        })
    }
}

proof fn lemma_gain_nothing(allocation: Seq<Seq<int>>, finish: Seq<bool>, j: int, n: nat)
    ensures
        gain(allocation, finish, finish, j, n) == 0,
    decreases n,
{
    if n > 0 {
        lemma_gain_nothing(allocation, finish, j, (n - 1) as nat);
    }
}

proof fn lemma_gain_nonnegative(
    allocation: Seq<Seq<int>>,
    finish: Seq<bool>,
    later: Seq<bool>,
    j: int,
    n: nat,
)
    requires
        nonnegative(allocation),
        n <= allocation.len(),
        0 <= j,
        forall|t: int| 0 <= t < n ==> j < (#[trigger] allocation[t]).len(),
    ensures
        gain(allocation, finish, later, j, n) >= 0,
    decreases n,
{
    if n > 0 {
        lemma_gain_nonnegative(allocation, finish, later, j, (n - 1) as nat);
        assert(0 <= allocation[n - 1][j]);
    }
}

/// When task `t` finishes on the near side, the gain up to `later` shrinks by
/// what `t` holds, provided `t` has finished in `later`.
proof fn lemma_gain_step(
    allocation: Seq<Seq<int>>,
    finish: Seq<bool>,
    later: Seq<bool>,
    j: int,
    n: nat,
    t: int,
)
    requires
        0 <= t < finish.len(),
        n <= finish.len(),
        !finish[t],
        later[t],
    ensures
        gain(allocation, finish.update(t, true), later, j, n) == gain(
            allocation,
            finish,
            later,
            j,
            n,
        ) - (if t < n {
            allocation[t][j]
        } else {
            0
        }),
    decreases n,
{
    if n > 0 {
        lemma_gain_step(allocation, finish, later, j, (n - 1) as nat, t);
    }
}

/// Where the scan comes to rest, no task is ready, every task that had
/// finished before still has, and the work vector has grown by what the newly
/// finished tasks held.
pub proof fn lemma_settle_comes_to_rest(
    request: Seq<Seq<int>>,
    allocation: Seq<Seq<int>>,
    work: Seq<int>,
    finish: Seq<bool>,
    order: Seq<int>,
)
    requires
        shaped(request, allocation, work, finish),
        visits_all(order, finish.len()),
    ensures
        ({
            let end = settle(request, allocation, work, finish, order);
            &&& end.0.len() == work.len()
            &&& within(finish, end.1)
            &&& at_rest(request, end.0, end.1)
            &&& forall|j: int|
                0 <= j < work.len() ==> #[trigger] end.0[j] == work[j] + gain(
                    allocation,
                    finish,
                    end.1,
                    j,
                    finish.len(),
                )
        }),
    decreases pending(finish),
{
    let n = finish.len();
    let k = first_ready(request, work, finish, order, 0);
    lemma_first_ready(request, work, finish, order, 0);
    if 0 <= k < order.len() {
        let t = order[k];
        let work1 = plus(work, allocation[t]);
        let finish1 = finish.update(t, true);
        lemma_pending_finish(finish, t);
        lemma_settle_comes_to_rest(request, allocation, work1, finish1, order);
        let end = settle(request, allocation, work, finish, order);
        assert(end == settle(request, allocation, work1, finish1, order));
        assert(end.1[t]);
        assert forall|j: int| 0 <= j < work.len() implies #[trigger] end.0[j] == work[j] + gain(
            allocation,
            finish,
            end.1,
            j,
            n,
        ) by {
            lemma_gain_step(allocation, finish, end.1, j, n, t);
            assert(end.0[j] == work1[j] + gain(allocation, finish1, end.1, j, n));
        }
    } else {
        assert forall|t: int| 0 <= t < n implies !ready(request, work, finish, t) by {
            assert(visits(order, t));
            let i = choose|i: int| 0 <= i < order.len() && #[trigger] order[i] == t;
            assert(!ready(request, work, finish, order[i]));
        }
        assert forall|j: int| 0 <= j < work.len() implies #[trigger] work[j] == work[j] + gain(
            allocation,
            finish,
            finish,
            j,
            n,
        ) by {
            lemma_gain_nothing(allocation, finish, j, n);
        }
    }
}

/// A scan that starts inside a state of rest stays inside it: no task finishes
/// that has not finished there. `rest_work` is the work vector of that state.
pub proof fn lemma_settle_stays_within(
    request: Seq<Seq<int>>,
    allocation: Seq<Seq<int>>,
    work: Seq<int>,
    finish: Seq<bool>,
    order: Seq<int>,
    rest_work: Seq<int>,
    rest: Seq<bool>,
)
    requires
        shaped(request, allocation, work, finish),
        nonnegative(allocation),
        within(finish, rest),
        rest_work.len() == work.len(),
        at_rest(request, rest_work, rest),
        forall|j: int|
            0 <= j < work.len() ==> #[trigger] rest_work[j] == work[j] + gain(
                allocation,
                finish,
                rest,
                j,
                finish.len(),
            ),
    ensures
        within(settle(request, allocation, work, finish, order).1, rest),
    decreases pending(finish),
{
    let n = finish.len();
    let k = first_ready(request, work, finish, order, 0);
    lemma_first_ready(request, work, finish, order, 0);
    if 0 <= k < order.len() {
        let t = order[k];
        let work1 = plus(work, allocation[t]);
        let finish1 = finish.update(t, true);
        lemma_pending_finish(finish, t);
        assert(ready(request, work, finish, t));
        assert(rest[t]) by {
            if !rest[t] {
                assert forall|j: int| 0 <= j < request[t].len() implies request[t][j]
                    <= rest_work[j] by {
                    lemma_gain_nonnegative(allocation, finish, rest, j, n);
                    assert(rest_work[j] == work[j] + gain(allocation, finish, rest, j, n));
                }
                assert(ready(request, rest_work, rest, t));
            }
        }
        assert forall|j: int| 0 <= j < work1.len() implies #[trigger] rest_work[j] == work1[j]
            + gain(allocation, finish1, rest, j, n) by {
            lemma_gain_step(allocation, finish, rest, j, n, t);
            assert(rest_work[j] == work[j] + gain(allocation, finish, rest, j, n));
        }
        lemma_settle_stays_within(request, allocation, work1, finish1, order, rest_work, rest);
    }
}

/// Two scans that visit the tasks in different orders come to rest in the same
/// state, so the verdict is the same whatever the order.
pub proof fn lemma_scan_order_is_irrelevant(
    request: Seq<Seq<int>>,
    allocation: Seq<Seq<int>>,
    work: Seq<int>,
    finish: Seq<bool>,
    order1: Seq<int>,
    order2: Seq<int>,
)
    requires
        shaped(request, allocation, work, finish),
        nonnegative(allocation),
        visits_all(order1, finish.len()),
        visits_all(order2, finish.len()),
    ensures
        settle(request, allocation, work, finish, order1) == settle(
            request,
            allocation,
            work,
            finish,
            order2,
        ),
        all_done(settle(request, allocation, work, finish, order1).1) == all_done(
            settle(request, allocation, work, finish, order2).1,
        ),
{
    let end1 = settle(request, allocation, work, finish, order1);
    let end2 = settle(request, allocation, work, finish, order2);
    lemma_settle_comes_to_rest(request, allocation, work, finish, order1);
    lemma_settle_comes_to_rest(request, allocation, work, finish, order2);
    lemma_settle_stays_within(request, allocation, work, finish, order2, end1.0, end1.1);
    lemma_settle_stays_within(request, allocation, work, finish, order1, end2.0, end2.1);
    assert(end1.1 =~= end2.1);
    assert(end1.0 =~= end2.0);
}

/// The verdict of a scan in any order that visits every task is the verdict
/// of the detector.
pub proof fn lemma_verdict_in_any_order(
    request: Seq<Seq<int>>,
    allocation: Seq<Seq<int>>,
    work: Seq<int>,
    finish: Seq<bool>,
    order: Seq<int>,
)
    requires
        shaped(request, allocation, work, finish),
        nonnegative(allocation),
        visits_all(order, finish.len()),
    ensures
        all_done(settle(request, allocation, work, finish, order).1) == safe(
            request,
            allocation,
            work,
            finish,
        ),
{
    let index = index_order(finish.len());
    assert forall|t: int| 0 <= t < finish.len() implies #[trigger] visits(index, t) by {
        assert(index[t] == t);
    }
    lemma_scan_order_is_irrelevant(request, allocation, work, finish, order, index);
}

/// The tasks of `schedule` can finish one after the other: each is ready when
/// its turn comes, and gives back what it holds when it has finished.
pub open spec fn runs_through(
    request: Seq<Seq<int>>,
    allocation: Seq<Seq<int>>,
    work: Seq<int>,
    finish: Seq<bool>,
    schedule: Seq<int>,
) -> bool
    decreases schedule.len(),
{
    schedule.len() == 0 || (ready(request, work, finish, schedule[0]) && runs_through(
        request,
        allocation,
        plus(work, allocation[schedule[0]]),
        finish.update(schedule[0], true),
        schedule.drop_first(),
    ))
}

/// The finish flags after the tasks of `schedule` have finished.
pub open spec fn finished_after(finish: Seq<bool>, schedule: Seq<int>) -> Seq<bool>
    decreases schedule.len(),
{
    if schedule.len() == 0 {
        finish
    } else {
        finished_after(finish.update(schedule[0], true), schedule.drop_first())
    }
}

/// `schedule` is a safe sequence: its tasks can finish one after the other,
/// and then every task has finished.
pub open spec fn is_safe_sequence(
    request: Seq<Seq<int>>,
    allocation: Seq<Seq<int>>,
    work: Seq<int>,
    finish: Seq<bool>,
    schedule: Seq<int>,
) -> bool {
    runs_through(request, allocation, work, finish, schedule) && all_done(
        finished_after(finish, schedule),
    )
}

/// The tasks in the order in which the scan lets them finish.
pub open spec fn finishing_order(
    request: Seq<Seq<int>>,
    allocation: Seq<Seq<int>>,
    work: Seq<int>,
    finish: Seq<bool>,
    order: Seq<int>,
) -> Seq<int>
    decreases pending(finish),
{
    let k = first_ready(request, work, finish, order, 0);
    if 0 <= k < order.len() {
        let t = order[k];
        proof {
            lemma_first_ready(request, work, finish, order, 0);
            lemma_pending_finish(finish, t);
        }
        seq![t] + finishing_order(
            request,
            allocation,
            plus(work, allocation[t]),
            finish.update(t, true),
            order,
        )
    } else {
        Seq::empty()
    }
}

/// The tasks can finish in the order in which the scan lets them finish, and
/// then those have finished that have finished where the scan comes to rest.
pub proof fn lemma_scan_is_a_schedule(
    request: Seq<Seq<int>>,
    allocation: Seq<Seq<int>>,
    work: Seq<int>,
    finish: Seq<bool>,
    order: Seq<int>,
)
    ensures
        runs_through(
            request,
            allocation,
            work,
            finish,
            finishing_order(request, allocation, work, finish, order),
        ),
        finished_after(finish, finishing_order(request, allocation, work, finish, order))
            == settle(request, allocation, work, finish, order).1,
    decreases pending(finish),
{
    let k = first_ready(request, work, finish, order, 0);
    lemma_first_ready(request, work, finish, order, 0);
    if 0 <= k < order.len() {
        let t = order[k];
        let work1 = plus(work, allocation[t]);
        let finish1 = finish.update(t, true);
        lemma_pending_finish(finish, t);
        lemma_scan_is_a_schedule(request, allocation, work1, finish1, order);
        let rest = finishing_order(request, allocation, work1, finish1, order);
        let schedule = finishing_order(request, allocation, work, finish, order);
        assert(schedule == seq![t] + rest);
        assert(schedule[0] == t);
        assert(schedule.drop_first() =~= rest);
    }
}

/// A schedule that starts inside a state of rest stays inside it: no task
/// finishes that has not finished there. `rest_work` is the work vector of that
/// state.
pub proof fn lemma_schedule_stays_within(
    request: Seq<Seq<int>>,
    allocation: Seq<Seq<int>>,
    work: Seq<int>,
    finish: Seq<bool>,
    schedule: Seq<int>,
    rest_work: Seq<int>,
    rest: Seq<bool>,
)
    requires
        shaped(request, allocation, work, finish),
        nonnegative(allocation),
        within(finish, rest),
        rest_work.len() == work.len(),
        at_rest(request, rest_work, rest),
        forall|j: int|
            0 <= j < work.len() ==> #[trigger] rest_work[j] == work[j] + gain(
                allocation,
                finish,
                rest,
                j,
                finish.len(),
            ),
        runs_through(request, allocation, work, finish, schedule),
    ensures
        within(finished_after(finish, schedule), rest),
    decreases schedule.len(),
{
    let n = finish.len();
    if schedule.len() > 0 {
        let t = schedule[0];
        let work1 = plus(work, allocation[t]);
        let finish1 = finish.update(t, true);
        assert(rest[t]) by {
            if !rest[t] {
                assert forall|j: int| 0 <= j < request[t].len() implies request[t][j]
                    <= rest_work[j] by {
                    lemma_gain_nonnegative(allocation, finish, rest, j, n);
                    assert(rest_work[j] == work[j] + gain(allocation, finish, rest, j, n));
                }
                assert(ready(request, rest_work, rest, t));
            }
        }
        assert forall|j: int| 0 <= j < work1.len() implies #[trigger] rest_work[j] == work1[j]
            + gain(allocation, finish1, rest, j, n) by {
            lemma_gain_step(allocation, finish, rest, j, n, t);
            assert(rest_work[j] == work[j] + gain(allocation, finish, rest, j, n));
        }
        lemma_schedule_stays_within(
            request,
            allocation,
            work1,
            finish1,
            schedule.drop_first(),
            rest_work,
            rest,
        );
    }
}

/// The request is safe exactly if there is a safe sequence: an order in which
/// the tasks that have not finished can finish one after the other.
pub proof fn lemma_safe_means_a_safe_sequence(
    request: Seq<Seq<int>>,
    allocation: Seq<Seq<int>>,
    work: Seq<int>,
    finish: Seq<bool>,
)
    requires
        shaped(request, allocation, work, finish),
        nonnegative(allocation),
    ensures
        safe(request, allocation, work, finish) <==> exists|schedule: Seq<int>|
            is_safe_sequence(request, allocation, work, finish, schedule),
{
    let order = index_order(finish.len());
    let end = settle(request, allocation, work, finish, order);
    if safe(request, allocation, work, finish) {
        lemma_scan_is_a_schedule(request, allocation, work, finish, order);
        assert(is_safe_sequence(
            request,
            allocation,
            work,
            finish,
            finishing_order(request, allocation, work, finish, order),
        ));
    }
    if exists|schedule: Seq<int>| is_safe_sequence(request, allocation, work, finish, schedule) {
        let schedule = choose|schedule: Seq<int>|
            is_safe_sequence(request, allocation, work, finish, schedule);
        assert forall|t: int| 0 <= t < finish.len() implies #[trigger] visits(order, t) by {
            assert(order[t] == t);
        }
        lemma_settle_comes_to_rest(request, allocation, work, finish, order);
        lemma_schedule_stays_within(request, allocation, work, finish, schedule, end.0, end.1);
        assert(all_done(end.1));
    }
}

/// A task that asks for a unit of a resource of which none is free, while every
/// task asks for at least as many units of that resource as it holds, never
/// finishes: whoever finishes has asked for none of them, so has held none,
/// and gives none back.
pub proof fn lemma_starved_task_never_finishes(
    request: Seq<Seq<int>>,
    allocation: Seq<Seq<int>>,
    work: Seq<int>,
    finish: Seq<bool>,
    order: Seq<int>,
    starved: int,
    j: int,
)
    requires
        shaped(request, allocation, work, finish),
        nonnegative(allocation),
        0 <= starved < finish.len(),
        0 <= j < work.len(),
        !finish[starved],
        work[j] == 0,
        request[starved][j] >= 1,
        forall|t: int| 0 <= t < finish.len() ==> (#[trigger] request[t])[j] >= allocation[t][j],
    ensures
        settle(request, allocation, work, finish, order).1.len() == finish.len(),
        !settle(request, allocation, work, finish, order).1[starved],
        !all_done(settle(request, allocation, work, finish, order).1),
    decreases pending(finish),
{
    let k = first_ready(request, work, finish, order, 0);
    lemma_first_ready(request, work, finish, order, 0);
    if 0 <= k < order.len() {
        let t = order[k];
        lemma_pending_finish(finish, t);
        assert(request[t][j] <= work[j]);
        assert(0 <= allocation[t][j]);
        lemma_starved_task_never_finishes(
            request,
            allocation,
            plus(work, allocation[t]),
            finish.update(t, true),
            order,
            starved,
            j,
        );
    }
}

} // verus!
