use vstd::prelude::*;

verus! {

/// How a job ended on its worker.
#[derive(Clone, Copy, Debug, PartialEq, Eq, Structural)]
pub enum JobOutcome {
    /// The job ran to its end.
    Completed,
    /// The job's body failed; the worker caught the failure and lives on.
    Faulted,
}

/// The one kind of message that travels through the pool. The scheduler
/// reads `NewJob` from submitters, `WorkerDone` from workers and `Stop`
/// from whoever shuts the pool down; a worker reads `NewJob` and `Stop`
/// from the scheduler.
pub enum JobMessage<J> {
    /// A job to run.
    NewJob(J),
    /// The worker with this identity has nothing left to do; the outcome
    /// is that of the job it ran last.
    WorkerDone(usize, JobOutcome),
    /// Shut down.
    Stop,
}

/// Where the scheduler stands in its life.
#[derive(Clone, Copy, Debug, PartialEq, Eq, Structural)]
pub enum Phase {
    /// Jobs are accepted.
    Running,
    /// Shutdown was asked for; work that was accepted is still handed out.
    Draining,
    /// Every worker is idle after a shutdown; nothing is processed any more.
    Terminated,
}

/// What the scheduler asks its driver to do after one message.
pub enum Action<J> {
    /// Send the job to this worker.
    Run(usize, J),
    /// Send nothing.
    Wait,
    /// The job was not accepted; it is handed back.
    Refuse(J),
    /// Tell each of these workers to stop.
    Halt(Vec<usize>),
}

/// An `Action` as a mathematical value.
pub enum Effect<J> {
    Run(usize, J),
    Wait,
    Refuse(J),
    Halt(Seq<usize>),
}

impl<J> View for Action<J> {
    type V = Effect<J>;

    open spec fn view(&self) -> Effect<J> {
        match *self {
            Action::Run(w, j) => Effect::Run(w, j),
            Action::Wait => Effect::Wait,
            Action::Refuse(j) => Effect::Refuse(j),
            Action::Halt(ws) => Effect::Halt(ws@),
        }
    }
}

} // verus!
