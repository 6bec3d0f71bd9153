//! A minimal single-queue task scheduler: tasks spawn onto a FIFO queue and
//! `run` polls each in spawn order until the queue is empty. The futures
//! being polled live with the embedder; the queue discipline is here.

use vstd::prelude::*;

use std::collections::VecDeque;

verus! {

/// One unit of suspended work: an identity, and whether it has been polled.
#[derive(PartialEq, Eq, Structural)]
pub struct Task {
    pub id: u64,
    pub polled: bool,
}

impl Task {
    /// A fresh, not-yet-polled task.
    pub fn new(id: u64) -> (t: Task)
        ensures
            t.id == id,
            !t.polled,
    {
        Task { id, polled: false }
    }

    /// Drives the task once.
    pub fn poll(&mut self)
        ensures
            final(self).id == old(self).id,
            final(self).polled,
    {
        self.polled = true;
    }
}

/// The FIFO task scheduler. Tasks that have run sit in `done`, in the order
/// they were polled.
pub struct Executor {
    pub tasks: VecDeque<Task>,
    pub done: Vec<Task>,
}

impl Executor {
    /// An empty scheduler.
    pub fn new() -> (r: Executor)
        ensures
            r.tasks@ == Seq::<Task>::empty(),
            r.done@ == Seq::<Task>::empty(),
    {
        Executor { tasks: VecDeque::new(), done: Vec::new() }
    }

    /// Queues a task behind the ones already waiting.
    pub fn spawn(&mut self, task: Task)
        ensures
            final(self).tasks@ == old(self).tasks@.push(task),
            final(self).done@ == old(self).done@,
    {
        self.tasks.push_back(task);
    }

    /// Polls every queued task once, strictly in spawn order, until the
    /// queue is empty.
    pub fn run(&mut self)
        ensures
            final(self).tasks@.len() == 0,
            final(self).done@ == old(self).done@ + old(self).tasks@.map_values(
                |t: Task| Task { id: t.id, polled: true },
            ),
    {
        let ghost q0 = self.tasks@;
        let ghost d0 = self.done@;
        let ghost f = |t: Task| Task { id: t.id, polled: true };
        let ghost mut k: int = 0;
        proof {
            assert(d0 + q0.take(0).map_values(f) =~= d0);
            assert(q0.skip(0) =~= q0);
        }
        while self.tasks.len() > 0
            invariant
                0 <= k <= q0.len(),
                f == (|t: Task| Task { id: t.id, polled: true }),
                self.tasks@ == q0.skip(k),
                self.done@ == d0 + q0.take(k).map_values(f),
            decreases q0.len() - k,
        {
            match self.tasks.pop_front() {
                Some(mut task) => {
                    proof {
                        assert(q0.skip(k)[0] == q0[k]);
                        assert(q0.skip(k).subrange(1, q0.skip(k).len() as int) =~= q0.skip(k + 1));
                    }
                    task.poll();
                    self.done.push(task);
                    proof {
                        assert(q0.take(k + 1).drop_last() =~= q0.take(k));
                        assert(q0.take(k + 1).map_values(f) =~= q0.take(k).map_values(f).push(
                            f(q0[k]),
                        ));
                        let t2 = self.done@.last();
                        assert(t2 == Task { id: t2.id, polled: t2.polled });
                        assert(t2 == f(q0[k]));
                        assert(self.done@ =~= d0 + q0.take(k + 1).map_values(f));
                        k = k + 1;
                    }
                },
                None => {
                    proof {
                        assert(false);
                    }
                },
            }
        }
        proof {
            assert(q0.take(k) =~= q0);
        }
    }
}

} // verus!
