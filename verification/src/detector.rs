//! The deadlock detector: a safety check in the manner of the banker's
//! algorithm, run from scratch on a snapshot of the accounting matrices.

use vstd::prelude::*;

verus! {

/// The answer of the detector to one request.
#[derive(Clone, Copy, Debug, PartialEq, Eq, Structural)]
pub enum Verdict {
    /// Every live task can still run to its end if the request is granted.
    Safe,
    /// Some task could wait for ever.
    Unsafe,
}

/// Every entry of `row` is at most the entry of `work` at the same place.
pub open spec fn fits(row: Seq<int>, work: Seq<int>) -> bool {
    forall|j: int| 0 <= j < row.len() ==> row[j] <= work[j]
}

/// `work` with `row` added to it, entry by entry.
pub open spec fn plus(work: Seq<int>, row: Seq<int>) -> Seq<int> {
    Seq::new(work.len(), |j: int| work[j] + row[j])
}

/// Task `t` has not finished, and what it asks for is there.
pub open spec fn ready(request: Seq<Seq<int>>, work: Seq<int>, finish: Seq<bool>, t: int) -> bool {
    0 <= t < finish.len() && !finish[t] && fits(request[t], work)
}

/// The least position `k >= from` of `order` whose task is ready, or the
/// length of `order` if there is none.
pub open spec fn first_ready(
    request: Seq<Seq<int>>,
    work: Seq<int>,
    finish: Seq<bool>,
    order: Seq<int>,
    from: int,
) -> int
    decreases order.len() - from,
{
    if from < 0 || from >= order.len() {
        order.len() as int
    } else if ready(request, work, finish, order[from]) {
        from
    } else {
        first_ready(request, work, finish, order, from + 1)
    }
}

/// The number of tasks that have not finished.
pub open spec fn pending(finish: Seq<bool>) -> nat
    decreases finish.len(),
{
    if finish.len() == 0 {
        0
    } else {
        pending(finish.drop_last()) + (if finish.last() {
            0nat
        } else {
            1nat
        })
    }
}

/// The state in which the scan comes to rest. The tasks are visited in the
/// order `order`; the first one that is ready is marked as finished and gives
/// what it holds back to `work`; then the scan starts again. It ends when a
/// full pass finds no task ready. The result is the work vector and the finish
/// flags at that point.
pub open spec fn settle(
    request: Seq<Seq<int>>,
    allocation: Seq<Seq<int>>,
    work: Seq<int>,
    finish: Seq<bool>,
    order: Seq<int>,
) -> (Seq<int>, Seq<bool>)
    decreases pending(finish),
{
    let k = first_ready(request, work, finish, order, 0);
    if 0 <= k < order.len() {
        let t = order[k];
        proof {
            lemma_first_ready(request, work, finish, order, 0);
            lemma_pending_finish(finish, t);
        }
        settle(request, allocation, plus(work, allocation[t]), finish.update(t, true), order)
    } else {
        (work, finish)
    }
}

/// Every task has finished.
pub open spec fn all_done(finish: Seq<bool>) -> bool {
    forall|t: int| 0 <= t < finish.len() ==> finish[t]
}

/// The task slots in the order of their indices.
pub open spec fn index_order(n: nat) -> Seq<int> {
    Seq::new(n, |i: int| i)
}

/// The request is safe: scanning the tasks in the order of their slots, again
/// and again, lets every one of them finish.
pub open spec fn safe(
    request: Seq<Seq<int>>,
    allocation: Seq<Seq<int>>,
    work: Seq<int>,
    finish: Seq<bool>,
) -> bool {
    all_done(settle(request, allocation, work, finish, index_order(finish.len())).1)
}

/// What `first_ready` finds is ready, and nothing before it is.
pub proof fn lemma_first_ready(
    request: Seq<Seq<int>>,
    work: Seq<int>,
    finish: Seq<bool>,
    order: Seq<int>,
    from: int,
)
    requires
        0 <= from,
    ensures
        ({
            let k = first_ready(request, work, finish, order, from);
            &&& from <= k || k == order.len()
            &&& k <= order.len()
            &&& k < order.len() ==> ready(request, work, finish, order[k])
            &&& forall|i: int| from <= i < k ==> !ready(request, work, finish, #[trigger] order[i])
        }),
    decreases order.len() - from,
{
    if from < order.len() && !ready(request, work, finish, order[from]) {
        lemma_first_ready(request, work, finish, order, from + 1);
    }
}

/// Finishing one more task lowers the number of pending tasks by one.
pub proof fn lemma_pending_finish(finish: Seq<bool>, t: int)
    requires
        0 <= t < finish.len(),
        !finish[t],
    ensures
        pending(finish.update(t, true)) == pending(finish) - 1,
    decreases finish.len(),
{
    let after = finish.update(t, true);
    if t == finish.len() - 1 {
        assert(after.drop_last() =~= finish.drop_last());
    } else {
        assert(after.drop_last() =~= finish.drop_last().update(t, true));
        lemma_pending_finish(finish.drop_last(), t);
    }
}

/// No more tasks are pending than there are tasks.
pub proof fn lemma_pending_bound(finish: Seq<bool>)
    ensures
        pending(finish) <= finish.len(),
    decreases finish.len(),
{
    if finish.len() > 0 {
        lemma_pending_bound(finish.drop_last());
    }
}

/// The entries of a vector as mathematical integers.
pub open spec fn ints(v: Seq<i128>) -> Seq<int> {
    Seq::new(v.len(), |j: int| v[j] as int)
}

/// The rows of a matrix as sequences of mathematical integers.
pub open spec fn int_rows(m: Seq<Vec<i128>>) -> Seq<Seq<int>> {
    Seq::new(m.len(), |t: int| ints(m[t]@))
}

/// Whether a count is one that a 64-bit integer can hold.
pub open spec fn is_count(x: int) -> bool {
    -0x8000_0000_0000_0000 <= x < 0x8000_0000_0000_0000
}

/// Whether `x` is a count that a 64-bit integer can hold.
fn in_count_range(x: i128) -> (fits: bool)
    ensures
        fits == is_count(x as int),
{
    -0x8000_0000_0000_0000 <= x && x < 0x8000_0000_0000_0000
}

/// Whether every entry of `vec1` is at most the entry of `vec2` at the same
/// place.
pub fn vec_le(vec1: &Vec<i128>, vec2: &Vec<i128>) -> (le: bool)
    requires
        vec1.len() == vec2.len(),
    ensures
        le == fits(ints(vec1@), ints(vec2@)),
{
    let mut j: usize = 0;
    while j < vec1.len()
        invariant
            j <= vec1.len(),
            vec1.len() == vec2.len(),
            forall|i: int| 0 <= i < j ==> vec1[i] <= vec2[i],
        decreases vec1.len() - j,
    {
        if vec1[j] > vec2[j] {
            assert(ints(vec1@)[j as int] > ints(vec2@)[j as int]);
            return false;
        }
        j += 1;
    }
    true
}

/// Adds `vec2` to `vec1`, entry by entry.
pub fn vec_add(vec1: &mut Vec<i128>, vec2: &Vec<i128>)
    requires
        old(vec1).len() == vec2.len(),
        forall|j: int|
            0 <= j < vec2.len() ==> i128::MIN <= old(vec1)[j] + #[trigger] vec2[j] <= i128::MAX,
    ensures
        final(vec1).len() == old(vec1).len(),
        ints(final(vec1)@) == plus(ints(old(vec1)@), ints(vec2@)),
{
    let mut j: usize = 0;
    while j < vec1.len()
        invariant
            j <= vec1.len(),
            vec1.len() == vec2.len(),
            vec1.len() == old(vec1).len(),
            forall|i: int| 0 <= i < j ==> #[trigger] vec1[i] == old(vec1)[i] + vec2[i],
            forall|i: int| j <= i < vec1.len() ==> vec1[i] == old(vec1)[i],
            forall|i: int|
                0 <= i < vec2.len() ==> i128::MIN <= old(vec1)[i] + #[trigger] vec2[i] <= i128::MAX,
        decreases vec1.len() - j,
    {
        vec1[j] = vec1[j] + vec2[j];
        j += 1;
    }
    assert(ints(vec1@) =~= plus(ints(old(vec1)@), ints(vec2@)));
}

/// What the detector works on: the free units of each resource, what each task
/// asks for, what each task holds, and which tasks have finished already.
pub struct Snapshot {
    pub work: Vec<i128>,
    pub request: Vec<Vec<i128>>,
    pub allocation: Vec<Vec<i128>>,
    pub finish: Vec<bool>,
}

impl Snapshot {
    /// One row of each matrix per task, one entry of each row per resource, and
    /// counts that a 64-bit integer can hold.
    pub open spec fn wf(&self) -> bool {
        &&& self.request.len() == self.finish.len()
        &&& self.allocation.len() == self.finish.len()
        &&& forall|t: int|
            0 <= t < self.finish.len() ==> (#[trigger] self.request[t]).len() == self.work.len()
        &&& forall|t: int|
            0 <= t < self.finish.len() ==> (#[trigger] self.allocation[t]).len()
                == self.work.len()
        &&& forall|j: int| 0 <= j < self.work.len() ==> is_count(#[trigger] self.work[j] as int)
        &&& forall|t: int, j: int|
            0 <= t < self.finish.len() && 0 <= j < self.work.len() ==> is_count(
                #[trigger] self.allocation[t][j] as int,
            )
    }

    /// A snapshot of the four parts, or nothing where they do not fit
    /// together: where a matrix has not one row per finish flag, a row has not
    /// one entry per entry of `work`, or a count of `work` or `allocation` is
    /// more than a 64-bit integer can hold.
    pub fn new(
        work: Vec<i128>,
        request: Vec<Vec<i128>>,
        allocation: Vec<Vec<i128>>,
        finish: Vec<bool>,
    ) -> (snapshot: Option<Snapshot>)
        ensures
            snapshot is Some <==> (Snapshot { work, request, allocation, finish }).wf(),
            snapshot is Some ==> snapshot->0 == (Snapshot { work, request, allocation, finish }),
    {
        let n = finish.len();
        let width = work.len();
        if request.len() != n || allocation.len() != n {
            return None;
        }
        let mut j: usize = 0;
        while j < width
            invariant
                j <= width,
                width == work.len(),
                forall|i: int| 0 <= i < j ==> is_count(#[trigger] work[i] as int),
            decreases width - j,
        {
            if !in_count_range(work[j]) {
                assert(!is_count(
                    (Snapshot { work, request, allocation, finish }).work[j as int] as int,
                ));
                return None;
            }
            j += 1;
        }
        let mut t: usize = 0;
        while t < n
            invariant
                t <= n,
                n == request.len(),
                n == allocation.len(),
                width == work.len(),
                forall|i: int| 0 <= i < t ==> (#[trigger] request[i]).len() == width,
                forall|i: int| 0 <= i < t ==> (#[trigger] allocation[i]).len() == width,
                forall|i: int, j: int|
                    0 <= i < t && 0 <= j < width ==> is_count(#[trigger] allocation[i][j] as int),
            decreases n - t,
        {
            if request[t].len() != width || allocation[t].len() != width {
                assert((Snapshot { work, request, allocation, finish }).request[t as int].len()
                    != width || (Snapshot {
                    work,
                    request,
                    allocation,
                    finish,
                }).allocation[t as int].len() != width);
                return None;
            }
            let mut j: usize = 0;
            while j < width
                invariant
                    j <= width,
                    t < allocation.len(),
                    width == allocation[t as int].len(),
                    forall|k: int|
                        0 <= k < j ==> is_count(#[trigger] allocation[t as int][k] as int),
                decreases width - j,
            {
                if !in_count_range(allocation[t][j]) {
                    assert(!is_count(
                        (Snapshot {
                            work,
                            request,
                            allocation,
                            finish,
                        }).allocation[t as int][j as int] as int,
                    ));
                    return None;
                }
                j += 1;
            }
            t += 1;
        }
        Some(Snapshot { work, request, allocation, finish })
    }

    /// The request that the snapshot stands for is safe.
    pub open spec fn is_safe(&self) -> bool {
        safe(int_rows(self.request@), int_rows(self.allocation@), ints(self.work@), self.finish@)
    }

    /// Runs the safety check.
    pub fn verdict(self) -> (verdict: Verdict)
        requires
            self.wf(),
        ensures
            verdict == (if self.is_safe() {
                Verdict::Safe
            } else {
                Verdict::Unsafe
            }),
    {
        let Snapshot { work, request, allocation, finish } = self;
        let mut work = work;
        let mut finish = finish;
        let n = finish.len();
        let ghost req = int_rows(request@);
        let ghost alloc = int_rows(allocation@);
        let ghost order = index_order(n as nat);
        let ghost goal = settle(req, alloc, ints(work@), finish@, order);
        let ghost pending0 = pending(finish@);
        proof {
            lemma_pending_bound(finish@);
        }
        loop
            invariant
                n == finish.len(),
                request.len() == n,
                allocation.len() == n,
                req == int_rows(request@),
                alloc == int_rows(allocation@),
                order == index_order(n as nat),
                forall|t: int| 0 <= t < n ==> (#[trigger] request[t]).len() == work.len(),
                forall|t: int| 0 <= t < n ==> (#[trigger] allocation[t]).len() == work.len(),
                forall|t: int, j: int|
                    0 <= t < n && 0 <= j < work.len() ==> is_count(
                        #[trigger] allocation[t][j] as int,
                    ),
                pending(finish@) <= pending0 <= n,
                forall|j: int|
                    0 <= j < work.len() ==> -0x8000_0000_0000_0000 * (1 + pending0 - pending(
                        finish@,
                    )) <= #[trigger] work[j] < 0x8000_0000_0000_0000 * (1 + pending0 - pending(
                        finish@,
                    )),
                settle(req, alloc, ints(work@), finish@, order) == goal,
            ensures
                n == finish.len(),
                goal.1 == finish@,
            decreases pending(finish@),
        {
            let mut t: usize = 0;
            while t < n
                invariant_except_break
                    forall|i: int| 0 <= i < t ==> !ready(req, ints(work@), finish@, i),
                invariant
                    t <= n,
                    n == finish.len(),
                    request.len() == n,
                    req == int_rows(request@),
                    forall|i: int| 0 <= i < n ==> (#[trigger] request[i]).len() == work.len(),
                ensures
                    t <= n,
                    forall|i: int| 0 <= i < t ==> !ready(req, ints(work@), finish@, i),
                    t < n ==> ready(req, ints(work@), finish@, t as int),
                decreases n - t,
            {
                if !finish[t] && vec_le(&request[t], &work) {
                    break;
                }
                t += 1;
            }
            proof {
                lemma_first_ready(req, ints(work@), finish@, order, 0);
                let k = first_ready(req, ints(work@), finish@, order, 0);
                if k < t {
                    assert(!ready(req, ints(work@), finish@, order[k]));
                }
                if t < n && t < k {
                    assert(!ready(req, ints(work@), finish@, order[t as int]));
                }
                assert(k == t);
            }
            if t == n {
                break;
            }
            let ghost steps = 1 + pending0 - pending(finish@);
            proof {
                lemma_pending_finish(finish@, t as int);
                assert(alloc[t as int] == ints(allocation[t as int]@));
                assert forall|j: int| 0 <= j < work.len() implies i128::MIN <= work[j]
                    + #[trigger] allocation[t as int][j] <= i128::MAX by {
                    assert(-0x8000_0000_0000_0000 * steps <= work[j] < 0x8000_0000_0000_0000
                        * steps);
                    assert(is_count(allocation[t as int][j] as int));
                    assert(steps <= 0x1_0000_0000_0000_0000);
                }
            }
            let ghost before = work@;
            finish[t] = true;
            vec_add(&mut work, &allocation[t]);
            proof {
                assert forall|j: int| 0 <= j < work.len() implies -0x8000_0000_0000_0000 * (steps
                    + 1) <= #[trigger] work[j] < 0x8000_0000_0000_0000 * (steps + 1) by {
                    assert(ints(work@)[j] == ints(before)[j] + ints(allocation[t as int]@)[j]);
                    assert(is_count(allocation[t as int][j] as int));
                    assert(-0x8000_0000_0000_0000 * steps <= before[j] < 0x8000_0000_0000_0000
                        * steps);
                }
            }
        }
        let mut t: usize = 0;
        while t < n
            invariant
                t <= n,
                n == finish.len(),
                goal.1 == finish@,
                goal == settle(
                    int_rows(self.request@),
                    int_rows(self.allocation@),
                    ints(self.work@),
                    self.finish@,
                    index_order(self.finish@.len()),
                ),
                forall|i: int| 0 <= i < t ==> finish[i],
            decreases n - t,
        {
            if !finish[t] {
                return Verdict::Unsafe;
            }
            t += 1;
        }
        Verdict::Safe
    }
}

} // verus!
