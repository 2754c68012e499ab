//! The job queue behind a pool of workers: jobs go in at the back and come
//! out at the front, and the queue can be closed.

use std::collections::VecDeque;
use vstd::prelude::*;

verus! {

/// What a queue holds.
pub struct QueueView<T> {
    /// The jobs that wait, the oldest first.
    pub pending: Seq<T>,
    /// Whether the queue takes no more jobs.
    pub closed: bool,
}

/// What a worker that asks for a job is told.
pub enum Next<T> {
    /// Run this job, then ask again.
    Job(T),
    /// No job waits, but more may come: wait, then ask again.
    Wait,
    /// No job waits and none will come: leave.
    Exit,
}

impl<T> QueueView<T> {
    /// An open queue without jobs.
    pub open spec fn empty() -> QueueView<T> {
        QueueView { pending: Seq::empty(), closed: false }
    }

    /// The queue that `count` workers start with: open and without jobs, or,
    /// where there is no worker to take a job, closed from the start.
    pub open spec fn for_workers(count: nat) -> QueueView<T> {
        if count == 0 {
            QueueView::<T>::empty().close()
        } else {
            QueueView::<T>::empty()
        }
    }

    /// The queue after `job` was offered: an open queue takes it at the back,
    /// a closed one stays as it is.
    pub open spec fn offer(self, job: T) -> QueueView<T> {
        if self.closed {
            self
        } else {
            QueueView { pending: self.pending.push(job), closed: false }
        }
    }

    /// The queue after the jobs `jobs` were offered, one after the other.
    pub open spec fn offer_all(self, jobs: Seq<T>) -> QueueView<T>
        decreases jobs.len(),
    {
        if jobs.len() == 0 {
            self
        } else {
            self.offer_all(jobs.drop_last()).offer(jobs.last())
        }
    }

    /// The queue after it was closed: the jobs that wait stay.
    pub open spec fn close(self) -> QueueView<T> {
        QueueView { pending: self.pending, closed: true }
    }

    /// What a worker that asks now is told.
    pub open spec fn answer(self) -> Next<T> {
        if self.pending.len() > 0 {
            Next::Job(self.pending[0])
        } else if self.closed {
            Next::Exit
        } else {
            Next::Wait
        }
    }

    /// The queue after a worker has asked: the job it was given is gone.
    pub open spec fn after_answer(self) -> QueueView<T> {
        if self.pending.len() > 0 {
            QueueView { pending: self.pending.drop_first(), closed: self.closed }
        } else {
            self
        }
    }

    /// The queue after workers have asked `count` times.
    pub open spec fn after_answers(self, count: nat) -> QueueView<T>
        decreases count,
    {
        if count == 0 {
            self
        } else {
            self.after_answer().after_answers((count - 1) as nat)
        }
    }

    /// The jobs that workers are given when they ask `count` times, in the
    /// order in which they are given.
    pub open spec fn handed_out(self, count: nat) -> Seq<T>
        decreases count,
    {
        if count == 0 {
            Seq::empty()
        } else {
            match self.answer() {
                Next::Job(job) => seq![job] + self.after_answer().handed_out((count - 1) as nat),
                _ => self.after_answer().handed_out((count - 1) as nat),
            }
        }
    }
}

/// A queue of jobs that can be closed.
pub struct JobQueue<T> {
    pending: VecDeque<T>,
    closed: bool,
}

impl<T> View for JobQueue<T> {
    type V = QueueView<T>;

    closed spec fn view(&self) -> QueueView<T> {
        QueueView { pending: self.pending@, closed: self.closed }
    }
}

impl<T> JobQueue<T> {
    /// An open queue without jobs.
    pub fn new() -> (queue: JobQueue<T>)
        ensures
            queue@ == QueueView::<T>::empty(),
    {
        JobQueue { pending: VecDeque::new(), closed: false }
    }

    /// The queue that `count` workers start with: without jobs, and open
    /// unless there is no worker, so that a pool without workers refuses
    /// every job instead of keeping it for ever.
    pub fn for_workers(count: usize) -> (queue: JobQueue<T>)
        ensures
            queue@ == QueueView::<T>::for_workers(count as nat),
    {
        JobQueue { pending: VecDeque::new(), closed: count == 0 }
    }

    /// How many jobs wait.
    pub fn len(&self) -> (count: usize)
        ensures
            count == self@.pending.len(),
    {
        self.pending.len()
    }

    /// Whether the queue takes no more jobs.
    pub fn is_closed(&self) -> (closed: bool)
        ensures
            closed == self@.closed,
    {
        self.closed
    }

    /// Offers `job` to the queue. An open queue takes it at the back; a
    /// closed queue hands it back.
    pub fn push(&mut self, job: T) -> (result: Result<(), T>)
        ensures
            final(self)@ == old(self)@.offer(job),
            old(self)@.closed ==> result == Err::<(), T>(job),
            !old(self)@.closed ==> result is Ok,
    {
        if self.closed {
            Err(job)
        } else {
            self.pending.push_back(job);
            Ok(())
        }
    }

    /// Closes the queue. The jobs that wait stay, and are still handed out.
    pub fn close(&mut self)
        ensures
            final(self)@ == old(self)@.close(),
    {
        self.closed = true;
    }

    /// Answers a worker that asks for a job: the oldest job that waits, or,
    /// where none waits, whether to wait or to leave.
    pub fn take(&mut self) -> (next: Next<T>)
        ensures
            next == old(self)@.answer(),
            final(self)@ == old(self)@.after_answer(),
    {
        match self.pending.pop_front() {
            Some(job) => Next::Job(job),
            None => {
                assert(self.pending@ =~= old(self).pending@);
                if self.closed {
                    Next::Exit
                } else {
                    Next::Wait
                }
            },
        }
    }
}

/// Offering jobs to an open queue adds them at the back, in order.
pub proof fn lemma_offer_all<T>(queue: QueueView<T>, jobs: Seq<T>)
    requires
        !queue.closed,
    ensures
        queue.offer_all(jobs) == (QueueView { pending: queue.pending + jobs, closed: false }),
    decreases jobs.len(),
{
    if jobs.len() == 0 {
        assert(queue.pending + jobs =~= queue.pending);
    } else {
        lemma_offer_all(queue, jobs.drop_last());
        assert((queue.pending + jobs.drop_last()).push(jobs.last()) =~= queue.pending + jobs);
    }
}

/// A closed queue takes nothing: offering jobs to it changes nothing.
pub proof fn lemma_closed_queue_refuses<T>(queue: QueueView<T>, jobs: Seq<T>)
    requires
        queue.closed,
    ensures
        queue.offer_all(jobs) == queue,
    decreases jobs.len(),
{
    if jobs.len() > 0 {
        lemma_closed_queue_refuses(queue, jobs.drop_last());
    }
}

/// Workers that ask `count` times are given the `count` oldest jobs, each
/// once and in the order in which they were offered; once they have asked as
/// often as jobs wait, they have been given all of them, and no job is left.
pub proof fn lemma_handed_out<T>(queue: QueueView<T>, count: nat)
    ensures
        count <= queue.pending.len() ==> {
            &&& queue.handed_out(count) == queue.pending.take(count as int)
            &&& queue.after_answers(count).pending == queue.pending.skip(count as int)
        },
        count >= queue.pending.len() ==> {
            &&& queue.handed_out(count) == queue.pending
            &&& queue.after_answers(count).pending == Seq::<T>::empty()
        },
        queue.after_answers(count).closed == queue.closed,
    decreases count,
{
    if count == 0 {
        assert(queue.pending.take(0) =~= Seq::<T>::empty());
        assert(queue.pending.skip(0) =~= queue.pending);
        if queue.pending.len() == 0 {
            assert(queue.pending =~= Seq::<T>::empty());
        }
    } else {
        let next = queue.after_answer();
        lemma_handed_out(next, (count - 1) as nat);
        if queue.pending.len() > 0 {
            if count <= queue.pending.len() {
                assert(seq![queue.pending[0]] + next.pending.take(count - 1)
                    =~= queue.pending.take(count as int));
                assert(next.pending.skip(count - 1) =~= queue.pending.skip(count as int));
            } else {
                assert(seq![queue.pending[0]] + next.pending =~= queue.pending);
            }
        } else {
            assert(queue.pending =~= Seq::<T>::empty());
            assert(queue.pending.take(0) =~= Seq::<T>::empty());
        }
    }
}

/// Jobs offered to a new queue that is then closed are all handed out, each
/// once and in the order in which they were offered, to workers that ask as
/// often as there are jobs; the worker that asks next is told to leave.
pub proof fn lemma_closing_loses_no_job<T>(jobs: Seq<T>)
    ensures
        QueueView::<T>::empty().offer_all(jobs).close().handed_out(jobs.len()) == jobs,
        QueueView::<T>::empty().offer_all(jobs).close().after_answers(jobs.len()).answer()
            == Next::<T>::Exit,
{
    let open = QueueView::<T>::empty();
    lemma_offer_all(open, jobs);
    assert(open.pending + jobs =~= jobs);
    let shut = open.offer_all(jobs).close();
    lemma_handed_out(shut, jobs.len());
}

} // verus!
