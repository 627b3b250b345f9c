use vstd::prelude::*;
use crate::threadpool::message::{JobMessage, JobOutcome};

verus! {

/// One worker's side of the protocol. It runs nothing itself: its driver
/// hands it each message that arrives and does what comes back.
#[derive(Debug)]
pub struct Worker {
    id: usize,
    stopped: bool,
}

/// What a worker does with one message.
pub enum WorkerStep<J> {
    /// Run the job to its end, then send the report of its outcome.
    Execute(J),
    /// Send the report of a completed job as an acknowledgement, then leave
    /// the loop for good.
    Exit,
    /// Do nothing.
    Ignore,
}

impl Worker {
    /// The worker's identity.
    pub closed spec fn ident(&self) -> usize {
        self.id
    }

    /// Whether the worker was told to stop.
    pub closed spec fn halted(&self) -> bool {
        self.stopped
    }

    /// A worker that has not been told to stop.
    pub fn new(id: usize) -> (w: Self)
        ensures
            w.ident() == id,
            !w.halted(),
    {
        Worker { id, stopped: false }
    }

    pub fn id(&self) -> (id: usize)
        ensures
            id == self.ident(),
    {
        self.id
    }

    pub fn is_stopped(&self) -> (b: bool)
        ensures
            b == self.halted(),
    {
        self.stopped
    }

    /// Takes one message. A job is to be run; a stop is acknowledged and
    /// ends the worker; a stopped worker takes nothing any more, and a
    /// report of another worker is none of its business.
    pub fn receive<J>(&mut self, msg: JobMessage<J>) -> (step: WorkerStep<J>)
        ensures
            final(self).ident() == old(self).ident(),
            final(self).halted() == (old(self).halted() || msg is Stop),
            step == match msg {
                JobMessage::NewJob(job) => if old(self).halted() {
                    WorkerStep::Ignore
                } else {
                    WorkerStep::Execute(job)
                },
                JobMessage::Stop => if old(self).halted() {
                    WorkerStep::Ignore
                } else {
                    WorkerStep::Exit
                },
                JobMessage::WorkerDone(_, _) => WorkerStep::Ignore,
            },
    {
        if self.stopped {
            return WorkerStep::Ignore;
        }
        match msg {
            JobMessage::NewJob(job) => WorkerStep::Execute(job),
            JobMessage::Stop => {
                self.stopped = true;
                WorkerStep::Exit
            },
            JobMessage::WorkerDone(_, _) => WorkerStep::Ignore,
        }
    }

    /// The message by which this worker tells the scheduler that it has
    /// nothing left to do, with the outcome of the job it ran.
    pub fn report<J>(&self, outcome: JobOutcome) -> (msg: JobMessage<J>)
        ensures
            msg == JobMessage::<J>::WorkerDone(self.ident(), outcome),
    {
        JobMessage::WorkerDone(self.id, outcome)
    }
}

} // verus!
