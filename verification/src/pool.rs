//! The bookkeeping of a fixed pool of workers.
//!
//! The pool has a fixed number of workers and one queue of tasks without a
//! bound. A task is a number that the caller gives it; what the number stands
//! for is the caller's matter. A worker that is free asks for its next step
//! and is handed the oldest task, told to wait, or, once the pool is shut down
//! and the queue is empty, told to leave. Threads are left to the caller.

use vstd::prelude::*;
use std::collections::VecDeque;

verus! {

/// Why a task was not taken.
#[derive(Clone, Copy, Debug, PartialEq, Eq, Structural)]
pub enum PoolError {
    /// The pool is shut down and takes no new tasks.
    ShutDown,
}

/// What a worker does next.
#[derive(Clone, Copy, Debug, PartialEq, Eq, Structural)]
pub enum WorkerStep {
    /// Run the job with this number, then ask again.
    Run(u64),
    /// No task waits: wait for one, then ask again.
    Wait,
    /// The pool is shut down and no task waits: leave.
    Exit,
}

/// The pool as its users see it: for each worker the task it runs, if any,
/// the tasks that wait, oldest first, and whether new tasks are taken.
pub struct PoolView {
    pub running: Seq<Option<u64>>,
    pub queue: Seq<u64>,
    pub accepting: bool,
}

impl PoolView {
    /// Whether the pool has come to rest: it is shut down, no task waits and
    /// no worker runs one.
    pub open spec fn drained(self) -> bool {
        &&& !self.accepting
        &&& self.queue.len() == 0
        &&& forall|w: int| 0 <= w < self.running.len() ==> self.running[w] is None
    }

    /// The pool after `task` was offered to it.
    pub open spec fn execute(self, task: u64) -> PoolView {
        if self.accepting {
            PoolView { queue: self.queue.push(task), ..self }
        } else {
            self
        }
    }

    /// The step that `worker` is told to take.
    pub open spec fn step(self, worker: int) -> WorkerStep {
        if !(0 <= worker < self.running.len()) {
            WorkerStep::Exit
        } else if self.queue.len() > 0 {
            WorkerStep::Run(self.queue[0])
        } else if self.accepting {
            WorkerStep::Wait
        } else {
            WorkerStep::Exit
        }
    }

    /// The pool after `worker` asked for its next step: whatever it ran is
    /// done, and it runs the oldest task that waited, if there was one.
    pub open spec fn after_step(self, worker: int) -> PoolView {
        if !(0 <= worker < self.running.len()) {
            self
        } else if self.queue.len() > 0 {
            PoolView {
                running: self.running.update(worker, Some(self.queue[0])),
                queue: self.queue.skip(1),
                ..self
            }
        } else {
            PoolView { running: self.running.update(worker, None), ..self }
        }
    }
}

/// The bookkeeping of a fixed pool of workers.
pub struct WorkerPool {
    running: Vec<Option<u64>>,
    queue: VecDeque<u64>,
    accepting: bool,
}

impl View for WorkerPool {
    type V = PoolView;

    closed spec fn view(&self) -> PoolView {
        PoolView { running: self.running@, queue: self.queue@, accepting: self.accepting }
    }
}

impl WorkerPool {
    /// A pool of `size` workers, all free, that takes tasks.
    pub fn new(size: usize) -> (pool: WorkerPool)
        ensures
            pool@.running.len() == size,
            forall|w: int| 0 <= w < size ==> pool@.running[w] is None,
            pool@.queue == Seq::<u64>::empty(),
            pool@.accepting,
    {
        let mut running: Vec<Option<u64>> = Vec::new();
        let mut i: usize = 0;
        while i < size
            invariant
                i <= size,
                running@.len() == i,
                forall|w: int| 0 <= w < i ==> running@[w] is None,
            decreases size - i,
        {
            running.push(None);
            i += 1;
        }
        WorkerPool { running, queue: VecDeque::new(), accepting: true }
    }

    /// The number of workers.
    pub fn size(&self) -> (n: usize)
        ensures
            n == self@.running.len(),
    {
        self.running.len()
    }

    /// The number of tasks that wait.
    pub fn queued(&self) -> (n: usize)
        ensures
            n == self@.queue.len(),
    {
        self.queue.len()
    }

    /// Whether new tasks are taken.
    pub fn is_accepting(&self) -> (b: bool)
        ensures
            b == self@.accepting,
    {
        self.accepting
    }

    /// The task that `worker` runs, if it runs one.
    pub fn running(&self, worker: usize) -> (task: Option<u64>)
        ensures
            task == if worker < self@.running.len() {
                self@.running[worker as int]
            } else {
                None
            },
    {
        if worker < self.running.len() {
            self.running[worker]
        } else {
            None
        }
    }

    /// Puts `task` behind the tasks that wait. A pool that is shut down takes
    /// nothing.
    pub fn execute(&mut self, task: u64) -> (r: Result<(), PoolError>)
        ensures
            final(self)@ == old(self)@.execute(task),
            r == if old(self)@.accepting {
                Ok::<(), PoolError>(())
            } else {
                Err::<(), PoolError>(PoolError::ShutDown)
            },
    {
        if self.accepting {
            self.queue.push_back(task);
            Ok(())
        } else {
            Err(PoolError::ShutDown)
        }
    }

    /// Tells `worker`, which is free or has just finished its task, what to
    /// do next: run the oldest task that waits, wait for one, or leave once
    /// the pool is shut down and the queue is empty. A worker that the pool
    /// does not have is told to leave.
    pub fn next_step(&mut self, worker: usize) -> (step: WorkerStep)
        ensures
            step == old(self)@.step(worker as int),
            final(self)@ == old(self)@.after_step(worker as int),
    {
        if worker >= self.running.len() {
            return WorkerStep::Exit;
        }
        match self.queue.pop_front() {
            Some(task) => {
                self.running[worker] = Some(task);
                WorkerStep::Run(task)
            },
            None => {
                self.running[worker] = None;
                if self.accepting {
                    WorkerStep::Wait
                } else {
                    WorkerStep::Exit
                }
            },
        }
    }

    /// Shuts the pool down: no new task is taken. The tasks that wait are
    /// still handed out, and each worker leaves when it finds the queue
    /// empty.
    pub fn shutdown(&mut self)
        ensures
            final(self)@ == (PoolView { accepting: false, ..old(self)@ }),
    {
        self.accepting = false;
    }

    /// Whether the pool has come to rest.
    pub fn is_drained(&self) -> (b: bool)
        ensures
            b == self@.drained(),
    {
        if self.accepting || self.queue.len() > 0 {
            return false;
        }
        let len: usize = self.running.len();
        let mut w: usize = 0;
        while w < len
            invariant
                w <= len,
                len == self.running@.len(),
                forall|v: int| 0 <= v < w ==> self.running@[v] is None,
            decreases len - w,
        {
            if self.running[w].is_some() {
                return false;
            }
            w += 1;
        }
        true
    }
}

/// Tasks leave the queue in the order in which they came. Of tasks that were
/// taken one after the other into an empty queue, the worker that asks as the
/// `k`-th is handed the `k`-th.
pub proof fn lemma_first_in_first_out(pool: PoolView, first: u64, second: u64, a: int, b: int)
    requires
        pool.accepting,
        pool.queue.len() == 0,
        0 <= a < pool.running.len(),
        0 <= b < pool.running.len(),
    ensures
        pool.execute(first).execute(second).step(a) == WorkerStep::Run(first),
        pool.execute(first).execute(second).after_step(a).step(b) == WorkerStep::Run(second),
{
}

/// After a shutdown nothing new is taken, what waits is still handed out, and
/// a worker that finds the queue empty leaves.
pub proof fn lemma_shutdown_drains(pool: PoolView, task: u64, worker: int)
    requires
        !pool.accepting,
        0 <= worker < pool.running.len(),
    ensures
        pool.execute(task) == pool,
        pool.queue.len() > 0 ==> pool.step(worker) == WorkerStep::Run(pool.queue[0]),
        pool.queue.len() == 0 ==> pool.step(worker) == WorkerStep::Exit,
{
}

} // verus!
