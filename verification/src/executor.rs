//! First-in first-out run queue of the cooperative executor.
use vstd::prelude::*;
use std::collections::VecDeque;

verus! {

/// The executor's queue of tasks that still have work to do.
pub struct SimpleExecutor<T> {
    task_queue: VecDeque<T>,
}

impl<T> SimpleExecutor<T> {
    /// The queued tasks, the next one to run first.
    pub closed spec fn queue(&self) -> Seq<T> {
        self.task_queue@
    }

    /// An executor with no tasks.
    pub fn new() -> (r: Self)
        ensures
            r.queue() == Seq::<T>::empty(),
    {
        SimpleExecutor { task_queue: VecDeque::new() }
    }

    /// Queues a task behind all others; a task that is still pending after
    /// it was polled is queued again the same way.
    pub fn spawn(&mut self, task: T)
        ensures
            final(self).queue() == old(self).queue().push(task),
    {
        self.task_queue.push_back(task)
    }

    /// Settles a task after it was polled: a pending task goes to the back
    /// of the queue, a finished one is dropped.
    pub fn finish_poll(&mut self, task: T, pending: bool)
        ensures
            final(self).queue() == if pending { old(self).queue().push(task) } else { old(self).queue() },
    {
        if pending {
            self.task_queue.push_back(task);
        }
    }

    /// Takes the task to poll next: the one queued longest ago.
    pub fn next_task(&mut self) -> (r: Option<T>)
        ensures
            old(self).queue().len() == 0 ==> r is None && final(self).queue() == old(self).queue(),
            old(self).queue().len() > 0 ==> r == Some(old(self).queue()[0])
                && final(self).queue() == old(self).queue().drop_first(),
    {
        self.task_queue.pop_front()
    }
}

/// A future that is pending once and then ready, so that the task awaiting
/// it goes to the back of the queue.
pub struct YieldNow {
    yielded: bool,
}

impl YieldNow {
    pub closed spec fn has_yielded(&self) -> bool {
        self.yielded
    }

    /// A future that has not yet yielded.
    pub fn new() -> (r: Self)
        ensures
            !r.has_yielded(),
    {
        YieldNow { yielded: false }
    }

    /// Polls the future: ready when it yielded before; otherwise it yields
    /// now and the caller wakes the task and reports it pending.
    pub fn poll_ready(&mut self) -> (ready: bool)
        ensures
            ready == old(self).has_yielded(),
            final(self).has_yielded(),
    {
        if self.yielded {
            true
        } else {
            self.yielded = true;
            false
        }
    }
}

/// A task that is polled and re-queued while pending comes back to the
/// front only after every task queued before it has been taken.
pub proof fn lemma_fifo_requeue<T>(q: Seq<T>)
    requires
        q.len() > 0,
    ensures
        q.drop_first().push(q[0]).len() == q.len(),
        q.drop_first().push(q[0])[q.len() - 1] == q[0],
        forall|i: int| 0 <= i < q.len() - 1 ==> q.drop_first().push(q[0])[i] == q[i + 1],
{
}

} // verus!
