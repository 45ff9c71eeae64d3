//! The synchronization primitives as state machines.
//!
//! A primitive never suspends anybody. An acquisition says whether the caller
//! got the resource, has to try again, or was put on the wait queue; a release
//! names the task that it woke, if any. Tasks are named by their handles.

use std::collections::VecDeque;
use vstd::prelude::*;

verus! {

/// How an attempt to acquire a primitive ended.
#[derive(Clone, Copy, Debug, PartialEq, Eq, Structural)]
pub enum Acquire {
    /// The caller holds the resource.
    Acquired,
    /// The resource is taken and the caller was not queued: it gives up the
    /// processor and tries again.
    Retry,
    /// The caller was appended to the wait queue and sleeps until a release
    /// hands the resource to it.
    Queued,
}

/// The first of the waiters, if there is one.
pub open spec fn first_waiter(waiters: Seq<usize>) -> Option<usize> {
    if waiters.len() > 0 {
        Some(waiters[0])
    } else {
        None
    }
}

/// The waiters without the first of them.
pub open spec fn later_waiters(waiters: Seq<usize>) -> Seq<usize> {
    if waiters.len() > 0 {
        waiters.drop_first()
    } else {
        waiters
    }
}

/// A mutex as a mathematical value.
pub struct MutexView {
    /// Whether tasks that find the mutex taken are queued (or spin).
    pub blocking: bool,
    pub locked: bool,
    /// The handles of the waiting tasks, longest waiting first.
    pub waiters: Seq<usize>,
}

impl MutexView {
    /// Only a taken mutex that queues its waiters has any.
    pub open spec fn wf(self) -> bool {
        self.waiters.len() > 0 ==> self.blocking && self.locked
    }

    /// A free mutex without waiters.
    pub open spec fn fresh(blocking: bool) -> MutexView {
        MutexView { blocking, locked: false, waiters: Seq::empty() }
    }

    /// How one attempt to take the mutex ends.
    pub open spec fn attempt(self) -> Acquire {
        if !self.locked {
            Acquire::Acquired
        } else if self.blocking {
            Acquire::Queued
        } else {
            Acquire::Retry
        }
    }

    /// The mutex after one attempt of `task` to take it: taken, and with
    /// `task` behind the other waiters where the attempt ended in the queue.
    pub open spec fn lock(self, task: usize) -> MutexView {
        MutexView {
            blocking: self.blocking,
            locked: true,
            waiters: if self.attempt() == Acquire::Queued {
                self.waiters.push(task)
            } else {
                self.waiters
            },
        }
    }

    /// The mutex after a release. With waiters, the first of them owns it from
    /// then on: the mutex is never free in between.
    pub open spec fn unlock(self) -> MutexView {
        MutexView {
            blocking: self.blocking,
            locked: self.waiters.len() > 0,
            waiters: later_waiters(self.waiters),
        }
    }
}

/// A mutex whose `lock` is a busy wait on a flag.
pub struct MutexSpin {
    pub locked: bool,
}

impl View for MutexSpin {
    type V = MutexView;

    open spec fn view(&self) -> MutexView {
        MutexView { blocking: false, locked: self.locked, waiters: Seq::empty() }
    }
}

impl MutexSpin {
    pub fn new() -> (mutex: Self)
        ensures
            mutex@ == MutexView::fresh(false),
    {
        MutexSpin { locked: false }
    }

    /// Takes the mutex if it is free. A taken mutex is left as it is, and the
    /// caller tries again later.
    pub fn lock(&mut self) -> (got: Acquire)
        ensures
            got == old(self)@.attempt(),
            final(self).locked,
    {
        if self.locked {
            Acquire::Retry
        } else {
            self.locked = true;
            Acquire::Acquired
        }
    }

    pub fn unlock(&mut self)
        ensures
            final(self)@ == old(self)@.unlock(),
    {
        self.locked = false;
    }
}

/// A mutex that queues the tasks that find it taken and hands itself over to
/// the first of them on release.
pub struct MutexBlocking {
    pub locked: bool,
    pub wait_queue: VecDeque<usize>,
}

impl View for MutexBlocking {
    type V = MutexView;

    open spec fn view(&self) -> MutexView {
        MutexView { blocking: true, locked: self.locked, waiters: self.wait_queue@ }
    }
}

impl MutexBlocking {
    pub fn new() -> (mutex: Self)
        ensures
            mutex@ == MutexView::fresh(true),
    {
        MutexBlocking { locked: false, wait_queue: VecDeque::new() }
    }

    /// Takes the mutex if it is free, and appends `task` to the waiters if not.
    pub fn lock(&mut self, task: usize) -> (got: Acquire)
        ensures
            got == old(self)@.attempt(),
            final(self)@ == old(self)@.lock(task),
    {
        if self.locked {
            self.wait_queue.push_back(task);
            Acquire::Queued
        } else {
            self.locked = true;
            Acquire::Acquired
        }
    }

    /// Releases the mutex. With waiters, the longest waiting one is woken and
    /// owns the mutex from then on.
    pub fn unlock(&mut self) -> (woken: Option<usize>)
        ensures
            woken == first_waiter(old(self)@.waiters),
            final(self)@ == old(self)@.unlock(),
    {
        let woken = self.wait_queue.pop_front();
        self.locked = woken.is_some();
        proof {
            if old(self)@.waiters.len() > 0 {
                assert(self.wait_queue@ =~= old(self)@.waiters.drop_first());
            }
        }
        woken
    }
}

/// A mutex of either strategy.
pub enum Mutex {
    Spin(MutexSpin),
    Blocking(MutexBlocking),
}

impl View for Mutex {
    type V = MutexView;

    open spec fn view(&self) -> MutexView {
        match self {
            Mutex::Spin(m) => m@,
            Mutex::Blocking(m) => m@,
        }
    }
}

impl Mutex {
    /// A free mutex without waiters.
    pub fn new(blocking: bool) -> (mutex: Self)
        ensures
            mutex@ == MutexView::fresh(blocking),
    {
        if blocking {
            Mutex::Blocking(MutexBlocking::new())
        } else {
            Mutex::Spin(MutexSpin::new())
        }
    }

    pub fn locked(&self) -> (locked: bool)
        ensures
            locked == self@.locked,
    {
        match self {
            Mutex::Spin(m) => m.locked,
            Mutex::Blocking(m) => m.locked,
        }
    }

    pub fn blocking(&self) -> (blocking: bool)
        ensures
            blocking == self@.blocking,
    {
        match self {
            Mutex::Spin(_) => false,
            Mutex::Blocking(_) => true,
        }
    }

    /// One attempt of `task` to take the mutex.
    pub fn lock(&mut self, task: usize) -> (got: Acquire)
        ensures
            got == old(self)@.attempt(),
            final(self)@ == old(self)@.lock(task),
    {
        match self {
            Mutex::Spin(m) => m.lock(),
            Mutex::Blocking(m) => m.lock(task),
        }
    }

    /// Releases the mutex and names the waiter that now owns it, if there is
    /// one.
    pub fn unlock(&mut self) -> (woken: Option<usize>)
        ensures
            woken == first_waiter(old(self)@.waiters),
            final(self)@ == old(self)@.unlock(),
    {
        match self {
            Mutex::Spin(m) => {
                m.unlock();
                None
            },
            Mutex::Blocking(m) => m.unlock(),
        }
    }
}

/// A semaphore as a mathematical value.
pub struct SemaphoreView {
    /// The free units, or, where negative, the number of waiting tasks.
    pub count: int,
    /// The handles of the waiting tasks, longest waiting first.
    pub waiters: Seq<usize>,
}

impl SemaphoreView {
    /// There are waiters exactly while the count is negative, and as many as
    /// it says.
    pub open spec fn wf(self) -> bool {
        self.waiters.len() == (if self.count < 0 {
            -self.count
        } else {
            0
        })
    }

    /// A semaphore of `units` free units without waiters.
    pub open spec fn fresh(units: int) -> SemaphoreView {
        SemaphoreView { count: units, waiters: Seq::empty() }
    }

    /// How the attempt to take one unit ends.
    pub open spec fn attempt(self) -> Acquire {
        if self.count > 0 {
            Acquire::Acquired
        } else {
            Acquire::Queued
        }
    }

    /// The semaphore after `task` asked for one unit.
    pub open spec fn down(self, task: usize) -> SemaphoreView {
        SemaphoreView {
            count: self.count - 1,
            waiters: if self.count > 0 {
                self.waiters
            } else {
                self.waiters.push(task)
            },
        }
    }

    /// The task that a release wakes.
    pub open spec fn woken(self) -> Option<usize> {
        if self.count < 0 {
            first_waiter(self.waiters)
        } else {
            None
        }
    }

    /// The semaphore after one unit was given back.
    pub open spec fn up(self) -> SemaphoreView {
        SemaphoreView {
            count: self.count + 1,
            waiters: if self.count < 0 {
                later_waiters(self.waiters)
            } else {
                self.waiters
            },
        }
    }
}

/// A counting semaphore.
pub struct Semaphore {
    pub count: isize,
    pub wait_queue: VecDeque<usize>,
}

impl View for Semaphore {
    type V = SemaphoreView;

    open spec fn view(&self) -> SemaphoreView {
        SemaphoreView { count: self.count as int, waiters: self.wait_queue@ }
    }
}

impl Semaphore {
    /// A semaphore of `units` free units.
    pub fn new(units: usize) -> (semaphore: Self)
        requires
            units <= isize::MAX,
        ensures
            semaphore@ == SemaphoreView::fresh(units as int),
    {
        Semaphore { count: units as isize, wait_queue: VecDeque::new() }
    }

    /// Takes one unit for `task`. Where none is left, `task` is appended to the
    /// waiters.
    pub fn down(&mut self, task: usize) -> (got: Acquire)
        requires
            old(self).count > isize::MIN,
        ensures
            got == old(self)@.attempt(),
            final(self)@ == old(self)@.down(task),
    {
        self.count = self.count - 1;
        if self.count < 0 {
            self.wait_queue.push_back(task);
            Acquire::Queued
        } else {
            Acquire::Acquired
        }
    }

    /// Gives one unit back. With waiters, the longest waiting one is woken and
    /// has the unit.
    pub fn up(&mut self) -> (woken: Option<usize>)
        requires
            old(self).count < isize::MAX,
        ensures
            woken == old(self)@.woken(),
            final(self)@ == old(self)@.up(),
    {
        self.count = self.count + 1;
        if self.count <= 0 {
            let woken = self.wait_queue.pop_front();
            proof {
                if old(self)@.waiters.len() > 0 {
                    assert(self.wait_queue@ =~= old(self)@.waiters.drop_first());
                }
            }
            woken
        } else {
            None
        }
    }
}

/// A condition variable: a queue of waiting tasks. A signal that finds no
/// waiter is lost.
pub struct Condvar {
    pub wait_queue: VecDeque<usize>,
}

impl View for Condvar {
    type V = Seq<usize>;

    /// The handles of the waiting tasks, longest waiting first.
    open spec fn view(&self) -> Seq<usize> {
        self.wait_queue@
    }
}

impl Condvar {
    pub fn new() -> (condvar: Self)
        ensures
            condvar@ == Seq::<usize>::empty(),
    {
        Condvar { wait_queue: VecDeque::new() }
    }

    /// Wakes the longest waiting task, if there is one.
    pub fn signal(&mut self) -> (woken: Option<usize>)
        ensures
            woken == first_waiter(old(self)@),
            final(self)@ == later_waiters(old(self)@),
    {
        let woken = self.wait_queue.pop_front();
        proof {
            if old(self)@.len() > 0 {
                assert(self.wait_queue@ =~= old(self)@.drop_first());
            }
        }
        woken
    }

    /// The first half of a wait: releases `mutex` and appends `task` to the
    /// waiters of the condition variable, in one step. The result is the task
    /// that the release of the mutex woke. Once `task` has been signalled it
    /// takes the mutex again with [`Mutex::lock`].
    pub fn wait(&mut self, task: usize, mutex: &mut Mutex) -> (woken: Option<usize>)
        ensures
            woken == first_waiter(old(mutex)@.waiters),
            final(mutex)@ == old(mutex)@.unlock(),
            final(self)@ == old(self)@.push(task),
    {
        let woken = mutex.unlock();
        self.wait_queue.push_back(task);
        woken
    }
}

} // verus!
