//! The job queue shared by the workers of a pool: jobs leave it in the order
//! they came, each one to exactly one taker, and closing it lets the workers
//! finish what is queued and then stop.
use vstd::prelude::*;
use std::collections::VecDeque;

verus! {

/// The state of a queue: the jobs waiting, oldest first, and whether the
/// producing side has closed it.
pub struct QueueView<T> {
    pub pending: Seq<T>,
    pub closed: bool,
}

/// One operation on a queue, by the producer or by any worker.
pub enum QueueEvent<T> {
    /// The producer hands in a job.
    Submit(T),
    /// A worker asks for the next job.
    Take,
    /// The producer closes the queue.
    Close,
}

/// What a worker gets when it asks for a job.
pub enum Dequeue<T> {
    /// The oldest waiting job, now owned by this worker alone.
    Job(T),
    /// No job is waiting, and more may come: wait and ask again.
    Wait,
    /// No job is waiting, and none will come: stop.
    Closed,
}

/// The state after one operation.
pub open spec fn after_event<T>(q: QueueView<T>, e: QueueEvent<T>) -> QueueView<T> {
    match e {
        QueueEvent::Submit(job) => if q.closed {
            q
        } else {
            QueueView { pending: q.pending.push(job), closed: false }
        },
        QueueEvent::Take => if q.pending.len() > 0 {
            QueueView { pending: q.pending.drop_first(), closed: q.closed }
        } else {
            q
        },
        QueueEvent::Close => QueueView { pending: q.pending, closed: true },
    }
}

/// What a worker that asks for a job in state `q` gets.
pub open spec fn take_outcome<T>(q: QueueView<T>) -> Dequeue<T> {
    if q.pending.len() > 0 {
        Dequeue::Job(q.pending[0])
    } else if q.closed {
        Dequeue::Closed
    } else {
        Dequeue::Wait
    }
}

/// The job that one operation hands to a worker, if any.
pub open spec fn delivered_by<T>(q: QueueView<T>, e: QueueEvent<T>) -> Seq<T> {
    match e {
        QueueEvent::Take => if q.pending.len() > 0 {
            seq![q.pending[0]]
        } else {
            Seq::empty()
        },
        _ => Seq::empty(),
    }
}

/// The job that one operation adds to the queue, if any.
pub open spec fn accepted_by<T>(q: QueueView<T>, e: QueueEvent<T>) -> Seq<T> {
    match e {
        QueueEvent::Submit(job) => if q.closed {
            Seq::empty()
        } else {
            seq![job]
        },
        _ => Seq::empty(),
    }
}

/// The state after a run of operations from `q`.
pub open spec fn run_state<T>(q: QueueView<T>, events: Seq<QueueEvent<T>>) -> QueueView<T>
    decreases events.len(),
{
    if events.len() == 0 {
        q
    } else {
        after_event(run_state(q, events.drop_last()), events.last())
    }
}

/// The jobs handed to workers during a run of operations from `q`, in order.
pub open spec fn run_delivered<T>(q: QueueView<T>, events: Seq<QueueEvent<T>>) -> Seq<T>
    decreases events.len(),
{
    if events.len() == 0 {
        Seq::empty()
    } else {
        run_delivered(q, events.drop_last()) + delivered_by(
            run_state(q, events.drop_last()),
            events.last(),
        )
    }
}

/// The jobs accepted into the queue during a run of operations from `q`.
pub open spec fn run_accepted<T>(q: QueueView<T>, events: Seq<QueueEvent<T>>) -> Seq<T>
    decreases events.len(),
{
    if events.len() == 0 {
        Seq::empty()
    } else {
        run_accepted(q, events.drop_last()) + accepted_by(
            run_state(q, events.drop_last()),
            events.last(),
        )
    }
}

/// `n` requests for a job, by any workers.
pub open spec fn takes<T>(n: nat) -> Seq<QueueEvent<T>> {
    Seq::new(n, |i: int| QueueEvent::Take)
}

/// No job is lost or handed out twice: whatever the interleaving of
/// submissions, requests by any number of workers and closing, the jobs
/// handed out, followed by the jobs still waiting, are exactly the jobs that
/// were waiting at the start followed by the jobs accepted, in order.
pub proof fn lemma_each_job_delivered_once<T>(q: QueueView<T>, events: Seq<QueueEvent<T>>)
    ensures
        run_delivered(q, events) + run_state(q, events).pending == q.pending + run_accepted(
            q,
            events,
        ),
    decreases events.len(),
{
    if events.len() > 0 {
        let prev = events.drop_last();
        lemma_each_job_delivered_once(q, prev);
        let s = run_state(q, prev);
        let d = run_delivered(q, prev);
        let a = run_accepted(q, prev);
        match events.last() {
            QueueEvent::Submit(job) => {
                if !s.closed {
                    assert(d + s.pending.push(job) =~= (d + s.pending).push(job));
                    assert(q.pending + (a + seq![job]) =~= (q.pending + a).push(job));
                }
                assert(d + Seq::<T>::empty() =~= d);
                if s.closed {
                    assert(a + Seq::<T>::empty() =~= a);
                }
            },
            QueueEvent::Take => {
                assert(a + Seq::<T>::empty() =~= a);
                if s.pending.len() > 0 {
                    assert(d + seq![s.pending[0]] + s.pending.drop_first() =~= d + s.pending);
                } else {
                    assert(d + Seq::<T>::empty() =~= d);
                }
            },
            QueueEvent::Close => {
                assert(a + Seq::<T>::empty() =~= a);
                assert(d + Seq::<T>::empty() =~= d);
            },
        }
    }
}

/// Every waiting job is taken: from any state, as many requests as there
/// are waiting jobs hand out exactly those jobs, oldest first, and leave the
/// queue empty, open or closed as it was.
pub proof fn lemma_waiting_jobs_drain<T>(q: QueueView<T>, n: nat)
    requires
        n <= q.pending.len(),
    ensures
        run_delivered(q, takes::<T>(n)) == q.pending.take(n as int),
        run_state(q, takes::<T>(n)).pending == q.pending.skip(n as int),
        run_state(q, takes::<T>(n)).closed == q.closed,
    decreases n,
{
    if n > 0 {
        let m = (n - 1) as nat;
        assert(takes::<T>(n).drop_last() =~= takes::<T>(m));
        lemma_waiting_jobs_drain(q, m);
        let s = run_state(q, takes::<T>(m));
        assert(s.pending[0] == q.pending[m as int]);
        assert(q.pending.take(m as int) + seq![q.pending[m as int]] =~= q.pending.take(n as int));
        assert(s.pending.drop_first() =~= q.pending.skip(n as int));
    } else {
        assert(takes::<T>(0) =~= Seq::empty());
        assert(q.pending.take(0) =~= Seq::empty());
        assert(q.pending.skip(0) =~= q.pending);
    }
}

/// The queue of jobs waiting for a worker.
#[verifier::reject_recursive_types(T)]
pub struct JobQueue<T> {
    jobs: VecDeque<T>,
    closed: bool,
}

impl<T> View for JobQueue<T> {
    type V = QueueView<T>;

    closed spec fn view(&self) -> QueueView<T> {
        QueueView { pending: self.jobs@, closed: self.closed }
    }
}

impl<T> JobQueue<T> {
    /// An open queue with no job.
    pub fn new() -> (r: JobQueue<T>)
        ensures
            r@.pending == Seq::<T>::empty(),
            !r@.closed,
    {
        JobQueue { jobs: VecDeque::new(), closed: false }
    }

    /// Hands in a job. An open queue keeps it, behind the jobs already
    /// waiting; a closed one gives it back.
    pub fn submit(&mut self, job: T) -> (r: Result<(), T>)
        ensures
            final(self)@ == after_event(old(self)@, QueueEvent::Submit(job)),
            r is Ok <==> !old(self)@.closed,
            r matches Err(j) ==> j == job,
    {
        if self.closed {
            return Err(job);
        }
        self.jobs.push_back(job);
        Ok(())
    }

    /// Asks for the next job: the oldest waiting one, which leaves the queue;
    /// else `Wait` while the queue is open and `Closed` once it is closed.
    pub fn take(&mut self) -> (r: Dequeue<T>)
        ensures
            final(self)@ == after_event(old(self)@, QueueEvent::Take),
            r == take_outcome(old(self)@),
    {
        match self.jobs.pop_front() {
            Some(job) => Dequeue::Job(job),
            None => if self.closed {
                Dequeue::Closed
            } else {
                Dequeue::Wait
            },
        }
    }

    /// Closes the producing side: no job is accepted after this, and the
    /// jobs already waiting are still handed out.
    pub fn close(&mut self)
        ensures
            final(self)@ == after_event(old(self)@, QueueEvent::Close),
    {
        self.closed = true;
    }

    /// The number of waiting jobs.
    pub fn len(&self) -> (r: usize)
        ensures
            r == self@.pending.len(),
    {
        self.jobs.len()
    }

    /// Whether the queue is closed.
    pub fn is_closed(&self) -> (r: bool)
        ensures
            r == self@.closed,
    {
        self.closed
    }
}

} // verus!
