use vstd::prelude::*;
use crate::threadpool::message::{JobMessage, Phase};
use crate::threadpool::scheduler::Scheduler;
use crate::threadpool::worker::Worker;

verus! {

/// The handle by which jobs are submitted and the pool is shut down. It
/// keeps no queue: it names the messages that go to the scheduler.
#[derive(Debug)]
pub struct ThreadPool {
    size: usize,
}

impl ThreadPool {
    /// How many workers the pool has.
    pub closed spec fn spec_size(&self) -> usize {
        self.size
    }

    /// A pool of `size` workers.
    pub fn new(size: usize) -> (pool: Self)
        requires
            size >= 1,
        ensures
            pool.spec_size() == size,
    {
        ThreadPool { size }
    }

    #[verifier::when_used_as_spec(spec_size)]
    pub fn size(&self) -> (n: usize)
        ensures
            n == self.spec_size(),
    {
        self.size
    }

    /// The pool's workers, one for each identity, in the order of their
    /// identities.
    pub fn workers(&self) -> (ws: Vec<Worker>)
        ensures
            ws@.len() == self.size(),
            forall|i: int| 0 <= i < ws@.len() ==> (#[trigger] ws@[i]).ident() == i && !ws@[i].halted(),
    {
        let mut ws: Vec<Worker> = Vec::new();
        let mut id: usize = 0;
        while id < self.size
            invariant
                id <= self.size,
                ws@.len() == id,
                forall|i: int| 0 <= i < ws@.len() ==> (#[trigger] ws@[i]).ident() == i && !ws@[i].halted(),
            decreases self.size - id,
        {
            ws.push(Worker::new(id));
            id += 1;
        }
        ws
    }

    /// The pool's scheduler at the start: every worker idle, no job waiting.
    pub fn scheduler<J>(&self) -> (s: Scheduler<J>)
        requires
            self.size() >= 1,
        ensures
            s.wf(),
            s@.workers == self.size(),
            s@.phase == Phase::Running,
            !s@.told,
            s@.pending == Seq::<J>::empty(),
            s@.idle == Seq::new(self.size() as nat, |i: int| i as usize),
    {
        Scheduler::new(self.size)
    }

    /// The message that submits `job`. Nothing waits for the job to be run.
    pub fn execute<J>(&self, job: J) -> (msg: JobMessage<J>)
        ensures
            msg == JobMessage::NewJob(job),
    {
        JobMessage::NewJob(job)
    }

    /// The message that shuts the pool down. The handle is used up: no job
    /// can be submitted through it afterwards.
    pub fn stop<J>(self) -> (msg: JobMessage<J>)
        ensures
            msg == JobMessage::<J>::Stop,
    {
        JobMessage::Stop
    }
}

} // verus!
