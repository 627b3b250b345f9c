use vstd::prelude::*;
use crate::threadpool::message::{Effect, JobMessage, Phase};

verus! {

/// The scheduler's bookkeeping as a mathematical value.
pub struct PoolState<J> {
    /// Jobs that wait for a worker, oldest first.
    pub pending: Seq<J>,
    /// The workers without a job, in the order in which they fell idle.
    pub idle: Seq<usize>,
    /// How many workers the pool has; their identities are `0..workers`.
    pub workers: nat,
    pub phase: Phase,
    /// Whether the shutdown told every worker to stop at once. It did if no
    /// job waited then; else each worker is told when it falls idle.
    pub told: bool,
}

impl<J> PoolState<J> {
    /// The invariant of every state that the scheduler reaches: no worker is
    /// idle twice, every idle worker belongs to the pool, no job waits while
    /// a worker is idle, the pool is terminated exactly when a shutdown
    /// was asked for and all workers are idle, and once every worker has
    /// been told to stop no job waits.
    pub open spec fn wf(self) -> bool {
        &&& 1 <= self.workers <= usize::MAX
        &&& self.idle.no_duplicates()
        &&& forall|i: int| 0 <= i < self.idle.len() ==> #[trigger] self.idle[i] < self.workers
        &&& self.idle.len() <= self.workers
        &&& self.pending.len() > 0 ==> self.idle.len() == 0
        &&& self.phase == Phase::Terminated ==> self.idle.len() == self.workers
        &&& self.phase == Phase::Draining ==> self.idle.len() < self.workers
        &&& self.told ==> self.phase != Phase::Running && self.pending.len() == 0
    }

    /// Every worker of the pool, in the order of the identities.
    pub open spec fn everyone(self) -> Seq<usize> {
        Seq::new(self.workers, |i: int| i as usize)
    }

    /// Work that the pool still owes: the jobs that wait and the jobs that
    /// workers hold.
    pub open spec fn outstanding(self) -> int {
        self.pending.len() + self.workers - self.idle.len()
    }

    /// Whether the scheduler can take this message: a worker's report must
    /// name a worker of the pool.
    pub open spec fn admits(self, m: JobMessage<J>) -> bool {
        match m {
            JobMessage::WorkerDone(w, _) => w < self.workers,
            _ => true,
        }
    }

    /// The phase after a worker fell idle or a shutdown was asked for, with
    /// `idle` workers idle by then.
    pub open spec fn settle(self, idle: nat) -> Phase {
        if idle == self.workers {
            Phase::Terminated
        } else {
            Phase::Draining
        }
    }

    /// The state after one message.
    pub open spec fn next(self, m: JobMessage<J>) -> PoolState<J> {
        match m {
            JobMessage::NewJob(j) => {
                if self.phase != Phase::Running {
                    self
                } else if self.idle.len() > 0 {
                    PoolState { idle: self.idle.drop_last(), ..self }
                } else {
                    PoolState { pending: self.pending.push(j), ..self }
                }
            },
            JobMessage::WorkerDone(w, _) => {
                if self.phase == Phase::Terminated || self.idle.contains(w) {
                    self
                } else if self.pending.len() > 0 {
                    PoolState { pending: self.pending.drop_first(), ..self }
                } else if self.phase == Phase::Running {
                    PoolState { idle: self.idle.push(w), ..self }
                } else {
                    PoolState {
                        idle: self.idle.push(w),
                        phase: self.settle(self.idle.len() + 1),
                        ..self
                    }
                }
            },
            JobMessage::Stop => {
                if self.phase == Phase::Running {
                    PoolState {
                        phase: self.settle(self.idle.len()),
                        told: self.pending.len() == 0,
                        ..self
                    }
                } else {
                    self
                }
            },
        }
    }

    /// What the scheduler asks for after one message.
    pub open spec fn effect(self, m: JobMessage<J>) -> Effect<J> {
        match m {
            JobMessage::NewJob(j) => {
                if self.phase != Phase::Running {
                    Effect::Refuse(j)
                } else if self.idle.len() > 0 {
                    Effect::Run(self.idle.last(), j)
                } else {
                    Effect::Wait
                }
            },
            JobMessage::WorkerDone(w, _) => {
                if self.phase == Phase::Terminated || self.idle.contains(w) {
                    Effect::Wait
                } else if self.pending.len() > 0 {
                    Effect::Run(w, self.pending.first())
                } else if self.phase == Phase::Running || self.told {
                    Effect::Wait
                } else {
                    Effect::Halt(seq![w])
                }
            },
            JobMessage::Stop => {
                if self.phase != Phase::Running {
                    Effect::Wait
                } else if self.pending.len() == 0 {
                    Effect::Halt(self.everyone())
                } else {
                    Effect::Halt(Seq::empty())
                }
            },
        }
    }

    /// The state after a run over `msgs`: one message after the other, up
    /// to the end or to termination, whichever comes first.
    pub open spec fn run(self, msgs: Seq<JobMessage<J>>) -> PoolState<J>
        decreases msgs.len(),
    {
        if msgs.len() == 0 || self.phase == Phase::Terminated {
            self
        } else {
            self.next(msgs[0]).run(msgs.drop_first())
        }
    }

    /// The effects of a run over `msgs`, one for each message processed.
    pub open spec fn run_effects(self, msgs: Seq<JobMessage<J>>) -> Seq<Effect<J>>
        decreases msgs.len(),
    {
        if msgs.len() == 0 || self.phase == Phase::Terminated {
            Seq::empty()
        } else {
            seq![self.effect(msgs[0])] + self.next(msgs[0]).run_effects(msgs.drop_first())
        }
    }
}

} // verus!
