//! The execution engine, as a state machine: a fixed set of worker slots
//! pulling jobs from one shared queue, a watchdog that replaces terminated
//! workers in place, and an orderly shutdown. The threads themselves live
//! with the embedder; every scheduling decision and its guarantees are here,
//! proved over the model.

use vstd::prelude::*;

verus! {

/// One worker slot: a stable identity and whether its thread is live.
pub struct Worker {
    pub id: usize,
    pub alive: bool,
}

/// How running one job ended.
pub enum JobOutcome {
    /// The job ran to completion.
    Done,
    /// The job faulted; the fault was caught at the per-job boundary and the
    /// worker survives.
    Caught,
    /// The job faulted so hard that the worker's thread terminated; the
    /// watchdog will replace the slot.
    Killed,
}

/// The abstract state of the pool.
pub struct PoolView {
    pub accepting: bool,
    pub queue: Seq<u64>,
    pub workers: Seq<Worker>,
    pub completed: Seq<u64>,
    pub faulted: Seq<u64>,
    pub rejected: Seq<u64>,
}

/// Submitting a job: queued while the pool accepts, logged and dropped
/// after shutdown has begun.
pub open spec fn spec_submit(p: PoolView, job: u64) -> PoolView {
    if p.accepting {
        PoolView { queue: p.queue.push(job), ..p }
    } else {
        PoolView { rejected: p.rejected.push(job), ..p }
    }
}

/// Worker `w` takes the job at the head of the queue and runs it to the
/// given outcome. A fault touches only that job's record and, when it kills
/// the thread, that one worker's liveness: other jobs and workers are
/// untouched.
pub open spec fn spec_run_next(p: PoolView, w: int, outcome: JobOutcome) -> PoolView
    recommends
        0 <= w < p.workers.len(),
        p.workers[w].alive,
        p.queue.len() > 0,
{
    let job = p.queue[0];
    let q = p.queue.drop_first();
    match outcome {
        JobOutcome::Done => PoolView { queue: q, completed: p.completed.push(job), ..p },
        JobOutcome::Caught => PoolView { queue: q, faulted: p.faulted.push(job), ..p },
        JobOutcome::Killed => PoolView {
            queue: q,
            faulted: p.faulted.push(job),
            workers: p.workers.update(w, Worker { id: p.workers[w].id, alive: false }),
            ..p
        },
    }
}

/// One watchdog pass: every slot whose thread terminated is replaced in
/// place by a fresh live worker with the same identity; live workers are
/// never touched.
pub open spec fn spec_watchdog_scan(p: PoolView) -> PoolView {
    PoolView {
        workers: Seq::new(p.workers.len(), |i: int| Worker { id: p.workers[i].id, alive: true }),
        ..p
    }
}

/// Shutdown begins: the queue is closed to new jobs.
pub open spec fn spec_begin_shutdown(p: PoolView) -> PoolView {
    PoolView { accepting: false, ..p }
}

/// Shutdown completes: every job still queued is run to completion, and
/// every worker thread is joined.
pub open spec fn spec_shutdown(p: PoolView) -> PoolView {
    PoolView {
        accepting: false,
        queue: Seq::empty(),
        completed: p.completed + p.queue,
        workers: Seq::new(p.workers.len(), |i: int| Worker { id: p.workers[i].id, alive: false }),
        ..p
    }
}

/// The scheduling state of the worker pool. `completed`, `faulted` and
/// `rejected` are the model's job log, in order.
pub struct WorkerPool {
    accepting: bool,
    queue: Vec<u64>,
    workers: Vec<Worker>,
    completed: Vec<u64>,
    faulted: Vec<u64>,
    rejected: Vec<u64>,
}

impl View for WorkerPool {
    type V = PoolView;

    closed spec fn view(&self) -> PoolView {
        PoolView {
            accepting: self.accepting,
            queue: self.queue@,
            workers: self.workers@,
            completed: self.completed@,
            faulted: self.faulted@,
            rejected: self.rejected@,
        }
    }
}

impl WorkerPool {
    /// A pool of `size` live workers with slot identities `0..size` and an
    /// empty, open queue.
    pub fn new(size: usize) -> (r: WorkerPool)
        requires
            size > 0,
        ensures
            r@.accepting,
            r@.queue == Seq::<u64>::empty(),
            r@.workers.len() == size,
            forall|i: int|
                0 <= i < size ==> (#[trigger] r@.workers[i]).id == i && r@.workers[i].alive,
            r@.completed == Seq::<u64>::empty(),
            r@.faulted == Seq::<u64>::empty(),
            r@.rejected == Seq::<u64>::empty(),
    {
        let mut workers: Vec<Worker> = Vec::new();
        let mut id: usize = 0;
        while id < size
            invariant
                id <= size,
                workers@.len() == id,
                forall|i: int|
                    0 <= i < id ==> (#[trigger] workers@[i]).id == i && workers@[i].alive,
            decreases size - id,
        {
            workers.push(Worker { id, alive: true });
            id += 1;
        }
        WorkerPool {
            accepting: true,
            queue: Vec::new(),
            workers,
            completed: Vec::new(),
            faulted: Vec::new(),
            rejected: Vec::new(),
        }
    }

    /// Submits one job. After shutdown has begun the job is recorded as
    /// rejected and dropped; the caller is never blocked.
    pub fn execute(&mut self, job: u64)
        ensures
            final(self)@ == spec_submit(old(self)@, job),
    {
        if self.accepting {
            self.queue.push(job);
        } else {
            self.rejected.push(job);
        }
    }

    /// Worker `worker` runs the job at the head of the queue; `outcome` is
    /// how the embedder's job body ended, and the model holds for every
    /// outcome.
    pub fn run_next(&mut self, worker: usize, outcome: JobOutcome)
        requires
            worker < old(self)@.workers.len(),
            old(self)@.workers[worker as int].alive,
            old(self)@.queue.len() > 0,
        ensures
            final(self)@ == spec_run_next(old(self)@, worker as int, outcome),
    {
        let job = self.queue.remove(0);
        proof {
            assert(self.queue@ =~= old(self)@.queue.drop_first());
        }
        match outcome {
            JobOutcome::Done => {
                self.completed.push(job);
            },
            JobOutcome::Caught => {
                self.faulted.push(job);
            },
            JobOutcome::Killed => {
                self.faulted.push(job);
                let id = self.workers[worker].id;
                self.workers.set(worker, Worker { id, alive: false });
            },
        }
    }

    /// One watchdog pass: terminated workers are replaced in place, same
    /// slot identity, fresh thread; live workers are left alone.
    pub fn watchdog_scan(&mut self)
        ensures
            final(self)@ == spec_watchdog_scan(old(self)@),
    {
        let n = self.workers.len();
        let mut i: usize = 0;
        while i < n
            invariant
                n == self.workers@.len(),
                i <= n,
                self.accepting == old(self)@.accepting,
                self.queue@ == old(self)@.queue,
                self.completed@ == old(self)@.completed,
                self.faulted@ == old(self)@.faulted,
                self.rejected@ == old(self)@.rejected,
                forall|j: int|
                    0 <= j < i ==> (#[trigger] self.workers@[j]).id == old(
                        self,
                    )@.workers[j].id && self.workers@[j].alive,
                forall|j: int| i <= j < n ==> #[trigger] self.workers@[j] == old(self)@.workers[j],
            decreases n - i,
        {
            if !self.workers[i].alive {
                let id = self.workers[i].id;
                self.workers.set(i, Worker { id, alive: true });
            }
            i += 1;
        }
        proof {
            assert(self.workers@ =~= spec_watchdog_scan(old(self)@).workers);
        }
    }

    /// Closes the queue: jobs submitted from now on are rejected.
    pub fn begin_shutdown(&mut self)
        ensures
            final(self)@ == spec_begin_shutdown(old(self)@),
    {
        self.accepting = false;
    }

    /// Full shutdown: closes the queue, runs every job still queued to
    /// completion, and joins every worker thread before returning.
    pub fn shutdown(&mut self)
        ensures
            final(self)@ == spec_shutdown(old(self)@),
    {
        self.accepting = false;
        let ghost q0 = self.queue@;
        let ghost c0 = self.completed@;
        proof {
            assert(c0 + q0 =~= self.completed@ + self.queue@);
        }
        while self.queue.len() > 0
            invariant
                !self.accepting,
                self.workers@ == old(self)@.workers,
                self.faulted@ == old(self)@.faulted,
                self.rejected@ == old(self)@.rejected,
                c0 + q0 == self.completed@ + self.queue@,
            decreases self.queue@.len(),
        {
            let job = self.queue.remove(0);
            self.completed.push(job);
            proof {
                assert(c0 + q0 =~= self.completed@ + self.queue@);
            }
        }
        proof {
            assert(self.completed@ + self.queue@ =~= self.completed@);
            assert(self.completed@ =~= c0 + q0);
            assert(self.queue@ =~= Seq::<u64>::empty());
        }
        let n = self.workers.len();
        let mut i: usize = 0;
        while i < n
            invariant
                n == self.workers@.len(),
                n == old(self)@.workers.len(),
                i <= n,
                !self.accepting,
                self.queue@ == Seq::<u64>::empty(),
                self.completed@ == c0 + q0,
                c0 == old(self)@.completed,
                q0 == old(self)@.queue,
                self.faulted@ == old(self)@.faulted,
                self.rejected@ == old(self)@.rejected,
                forall|j: int|
                    0 <= j < i ==> (#[trigger] self.workers@[j]).id == old(
                        self,
                    )@.workers[j].id && !self.workers@[j].alive,
                forall|j: int| i <= j < n ==> #[trigger] self.workers@[j] == old(self)@.workers[j],
            decreases n - i,
        {
            let id = self.workers[i].id;
            self.workers.set(i, Worker { id, alive: false });
            i += 1;
        }
        proof {
            assert(self.workers@ =~= spec_shutdown(old(self)@).workers);
        }
    }

    /// Whether the queue still accepts jobs.
    pub fn is_accepting(&self) -> (r: bool)
        ensures
            r == self@.accepting,
    {
        self.accepting
    }

    /// How many jobs wait in the queue.
    pub fn queue_len(&self) -> (r: usize)
        ensures
            r == self@.queue.len(),
    {
        self.queue.len()
    }

    /// How many worker slots the pool holds.
    pub fn worker_count(&self) -> (r: usize)
        ensures
            r == self@.workers.len(),
    {
        self.workers.len()
    }

    /// The slot at position `i`: its identity and liveness.
    pub fn worker_at(&self, i: usize) -> (r: (usize, bool))
        requires
            i < self@.workers.len(),
        ensures
            r.0 == self@.workers[i as int].id,
            r.1 == self@.workers[i as int].alive,
    {
        let w = &self.workers[i];
        (w.id, w.alive)
    }

    /// The jobs that ran to completion, in order.
    pub fn completed(&self) -> (r: &Vec<u64>)
        ensures
            r@ == self@.completed,
    {
        &self.completed
    }

    /// The jobs that faulted, in order.
    pub fn faulted(&self) -> (r: &Vec<u64>)
        ensures
            r@ == self@.faulted,
    {
        &self.faulted
    }

    /// The jobs dropped because shutdown had begun, in order.
    pub fn rejected(&self) -> (r: &Vec<u64>)
        ensures
            r@ == self@.rejected,
    {
        &self.rejected
    }
}

/// A job that faults — even one that kills its worker's thread — does not
/// keep a later job from completing: after the watchdog's pass the slot is
/// back, same identity, and the next job runs to completion on any worker.
pub proof fn lemma_fault_is_isolated(p: PoolView, a: u64, b: u64, w1: int, w2: int)
    requires
        p.accepting,
        p.queue.len() == 0,
        0 <= w1 < p.workers.len(),
        0 <= w2 < p.workers.len(),
    ensures
        ({
            let p1 = spec_run_next(spec_submit(p, a), w1, JobOutcome::Killed);
            let p2 = spec_watchdog_scan(p1);
            let p3 = spec_run_next(spec_submit(p2, b), w2, JobOutcome::Done);
            &&& !p1.workers[w1].alive
            &&& p2.workers[w1].id == p.workers[w1].id && p2.workers[w1].alive
            &&& p3.completed == p.completed.push(b)
            &&& p3.faulted == p.faulted.push(a)
            &&& p3.workers.len() == p.workers.len()
            &&& forall|i: int|
                0 <= i < p.workers.len() ==> (#[trigger] p3.workers[i]).id == p.workers[i].id
                    && p3.workers[i].alive
        }),
{
    let p1 = spec_run_next(spec_submit(p, a), w1, JobOutcome::Killed);
    assert(spec_submit(p, a).queue =~= seq![a]);
    assert(p1.queue =~= Seq::<u64>::empty());
    let p2 = spec_watchdog_scan(p1);
    assert(spec_submit(p2, b).queue =~= seq![b]);
}

/// No job is accepted once shutdown has begun: it is recorded as rejected
/// and the queue is unchanged, and the pool never starts accepting again.
pub proof fn lemma_no_acceptance_after_shutdown(p: PoolView, job: u64)
    requires
        !p.accepting,
    ensures
        spec_submit(p, job).queue == p.queue,
        spec_submit(p, job).rejected == p.rejected.push(job),
        !spec_submit(p, job).accepting,
        !spec_run_next(p, 0, JobOutcome::Done).accepting,
        !spec_watchdog_scan(p).accepting,
{
}

/// Shutdown drains before it returns: every already-submitted job is run to
/// completion, the queue is empty, and every worker thread is joined — no
/// job is silently dropped and no thread leaked.
pub proof fn lemma_shutdown_drains_and_joins(p: PoolView)
    ensures
        !spec_shutdown(p).accepting,
        spec_shutdown(p).queue.len() == 0,
        spec_shutdown(p).completed == p.completed + p.queue,
        spec_shutdown(p).workers.len() == p.workers.len(),
        forall|i: int|
            0 <= i < p.workers.len() ==> (#[trigger] spec_shutdown(p).workers[i]).id
                == p.workers[i].id && !spec_shutdown(p).workers[i].alive,
{
}

/// The watchdog touches no live worker: a slot that is alive keeps exactly
/// the worker it had.
pub proof fn lemma_watchdog_spares_live_workers(p: PoolView, i: int)
    requires
        0 <= i < p.workers.len(),
        p.workers[i].alive,
    ensures
        spec_watchdog_scan(p).workers[i] == p.workers[i],
{
    assert(spec_watchdog_scan(p).workers[i].id == p.workers[i].id);
}

} // verus!
