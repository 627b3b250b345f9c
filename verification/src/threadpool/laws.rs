use vstd::prelude::*;
use crate::threadpool::message::{Effect, JobMessage, Phase};
use crate::threadpool::scheduler::{lemma_distinct_below, lemma_next_wf};
use crate::threadpool::state::PoolState;

verus! {

/// The job that an effect sends to a worker, if it sends one.
pub open spec fn job_of<J>(e: Effect<J>) -> Seq<J> {
    match e {
        Effect::Run(_, j) => seq![j],
        _ => Seq::empty(),
    }
}

/// The jobs that a run sent to workers, in the order in which they left.
pub open spec fn dispatched<J>(es: Seq<Effect<J>>) -> Seq<J>
    decreases es.len(),
{
    if es.len() == 0 {
        Seq::empty()
    } else {
        job_of(es[0]) + dispatched(es.drop_first())
    }
}

/// The workers that an effect tells to stop.
pub open spec fn told_of<J>(e: Effect<J>) -> Seq<usize> {
    match e {
        Effect::Halt(ws) => ws,
        _ => Seq::empty(),
    }
}

/// The workers that a run told to stop, in the order in which they were told.
pub open spec fn halted<J>(es: Seq<Effect<J>>) -> Seq<usize>
    decreases es.len(),
{
    if es.len() == 0 {
        Seq::empty()
    } else {
        told_of(es[0]) + halted(es.drop_first())
    }
}

impl<J> PoolState<J> {
    /// Whether the scheduler can take each of these messages.
    pub open spec fn admits_all(self, msgs: Seq<JobMessage<J>>) -> bool {
        forall|i: int| 0 <= i < msgs.len() ==> self.admits(#[trigger] msgs[i])
    }

    /// The job that one message adds to the pool's work, if it adds one.
    pub open spec fn takes(self, m: JobMessage<J>) -> Seq<J> {
        match m {
            JobMessage::NewJob(j) => if self.phase == Phase::Running {
                seq![j]
            } else {
                Seq::empty()
            },
            _ => Seq::empty(),
        }
    }

    /// The jobs that a run over `msgs` accepts, in the order of submission.
    pub open spec fn accepted(self, msgs: Seq<JobMessage<J>>) -> Seq<J>
        decreases msgs.len(),
    {
        if msgs.len() == 0 || self.phase == Phase::Terminated {
            Seq::empty()
        } else {
            self.takes(msgs[0]) + self.next(msgs[0]).accepted(msgs.drop_first())
        }
    }

    /// Whether a message is the report of a worker that holds a job.
    pub open spec fn completes(self, m: JobMessage<J>) -> bool {
        match m {
            JobMessage::WorkerDone(w, _) => self.phase != Phase::Terminated && !self.idle.contains(w),
            _ => false,
        }
    }

    /// How many messages of a run over `msgs` are reports of workers that
    /// hold a job at that moment.
    pub open spec fn completions(self, msgs: Seq<JobMessage<J>>) -> int
        decreases msgs.len(),
    {
        if msgs.len() == 0 || self.phase == Phase::Terminated {
            0
        } else {
            (if self.completes(msgs[0]) { 1int } else { 0int })
                + self.next(msgs[0]).completions(msgs.drop_first())
        }
    }

    /// Whether every message is a worker's report.
    pub open spec fn only_reports(msgs: Seq<JobMessage<J>>) -> bool {
        forall|i: int| 0 <= i < msgs.len() ==> #[trigger] msgs[i] is WorkerDone
    }
}

proof fn lemma_dispatched_cons<J>(e: Effect<J>, rest: Seq<Effect<J>>)
    ensures
        dispatched(seq![e] + rest) == job_of(e) + dispatched(rest),
        halted(seq![e] + rest) == told_of(e) + halted(rest),
{
    assert((seq![e] + rest).drop_first() =~= rest);
}

proof fn lemma_admits_rest<J>(s: PoolState<J>, msgs: Seq<JobMessage<J>>)
    requires
        s.admits_all(msgs),
        msgs.len() > 0,
    ensures
        s.admits(msgs[0]),
        s.next(msgs[0]).workers == s.workers,
        s.next(msgs[0]).admits_all(msgs.drop_first()),
{
    let t = s.next(msgs[0]);
    let rest = msgs.drop_first();
    assert forall|i: int| 0 <= i < rest.len() implies t.admits(#[trigger] rest[i]) by {
        assert(rest[i] == msgs[i + 1]);
        assert(s.admits(msgs[i + 1]));
    }
}

/// Every state of a run keeps the invariant. In particular, at every moment
/// between two messages, a worker is idle only while no job waits.
pub proof fn law_idle_means_empty_queue<J>(s: PoolState<J>, msgs: Seq<JobMessage<J>>)
    requires
        s.wf(),
        s.admits_all(msgs),
    ensures
        s.run(msgs).wf(),
        s.run(msgs).workers == s.workers,
        s.run(msgs).idle.len() > 0 ==> s.run(msgs).pending.len() == 0,
    decreases msgs.len(),
{
    if msgs.len() == 0 || s.phase == Phase::Terminated {
    } else {
        lemma_admits_rest(s, msgs);
        lemma_next_wf(s, msgs[0]);
        law_idle_means_empty_queue(s.next(msgs[0]), msgs.drop_first());
    }
}

/// Jobs leave in the order in which they came, each of them once: the jobs
/// that a run has sent to workers, followed by those that still wait, are
/// the jobs that waited at the start followed by those that the run
/// accepted. So the job at place `k` among the jobs sent is the job at
/// place `k` among the jobs taken in, it was sent to one worker, and of two
/// jobs the one submitted first is never sent after the other.
pub proof fn law_jobs_leave_in_order<J>(s: PoolState<J>, msgs: Seq<JobMessage<J>>)
    requires
        s.wf(),
        s.admits_all(msgs),
    ensures
        dispatched(s.run_effects(msgs)) + s.run(msgs).pending == s.pending + s.accepted(msgs),
    decreases msgs.len(),
{
    if msgs.len() == 0 || s.phase == Phase::Terminated {
        assert(dispatched(s.run_effects(msgs)) + s.pending =~= s.pending + s.accepted(msgs));
    } else {
        let m = msgs[0];
        let t = s.next(m);
        let rest = msgs.drop_first();
        lemma_admits_rest(s, msgs);
        lemma_next_wf(s, m);
        law_jobs_leave_in_order(t, rest);
        lemma_dispatched_cons(s.effect(m), t.run_effects(rest));
        assert(job_of(s.effect(m)) + t.pending =~= s.pending + s.takes(m));
        assert(dispatched(s.run_effects(msgs)) + s.run(msgs).pending
            =~= job_of(s.effect(m)) + (dispatched(t.run_effects(rest)) + t.run(rest).pending));
        assert(job_of(s.effect(m)) + (t.pending + t.accepted(rest))
            =~= (job_of(s.effect(m)) + t.pending) + t.accepted(rest));
        assert(s.pending + s.accepted(msgs) =~= (s.pending + s.takes(m)) + t.accepted(rest));
    }
}

/// A job is sent only to a worker that holds none: to one that was idle, or
/// to the one whose report is being answered; and that worker is not idle
/// afterwards. So no worker is given a second job before it has reported on
/// the first.
pub proof fn law_one_job_per_worker<J>(s: PoolState<J>, m: JobMessage<J>)
    requires
        s.wf(),
        s.admits(m),
    ensures
        match s.effect(m) {
            Effect::Run(w, _) => {
                &&& w < s.workers
                &&& !s.next(m).idle.contains(w)
                &&& match m {
                    JobMessage::NewJob(_) => s.idle.contains(w),
                    JobMessage::WorkerDone(v, _) => v == w && !s.idle.contains(w),
                    JobMessage::Stop => false,
                }
            },
            _ => true,
        },
{
    match m {
        JobMessage::NewJob(_) => {
            if s.phase == Phase::Running && s.idle.len() > 0 {
                let w = s.idle.last();
                assert(s.idle[s.idle.len() - 1] == w);
                let t = s.next(m);
                if t.idle.contains(w) {
                    let k = t.idle.index_of(w);
                    assert(s.idle[k] == w);
                }
            }
        },
        _ => {},
    }
}

/// While jobs wait, every report of a worker sends out the oldest of them:
/// as many reports as jobs wait, whichever workers they come from, send all
/// of them out, in their order.
pub proof fn law_queue_drains<J>(s: PoolState<J>, msgs: Seq<JobMessage<J>>)
    requires
        s.wf(),
        s.admits_all(msgs),
        PoolState::<J>::only_reports(msgs),
        msgs.len() <= s.pending.len(),
    ensures
        dispatched(s.run_effects(msgs)) == s.pending.take(msgs.len() as int),
        s.run(msgs).pending == s.pending.skip(msgs.len() as int),
        s.run(msgs).phase == s.phase,
    decreases msgs.len(),
{
    if msgs.len() == 0 {
        assert(s.pending.take(0) =~= Seq::<J>::empty());
        assert(s.pending.skip(0) =~= s.pending);
    } else {
        let m = msgs[0];
        let t = s.next(m);
        let rest = msgs.drop_first();
        lemma_admits_rest(s, msgs);
        lemma_next_wf(s, m);
        assert(m is WorkerDone);
        assert(s.idle.len() == 0);
        assert(s.phase != Phase::Terminated);
        assert forall|i: int| 0 <= i < rest.len() implies #[trigger] rest[i] is WorkerDone by {
            assert(rest[i] == msgs[i + 1]);
        }
        law_queue_drains(t, rest);
        lemma_dispatched_cons(s.effect(m), t.run_effects(rest));
        assert(seq![s.pending.first()] + t.pending.take(rest.len() as int)
            =~= s.pending.take(msgs.len() as int));
        assert(t.pending.skip(rest.len() as int) =~= s.pending.skip(msgs.len() as int));
    }
}

/// A pool that has terminated has sent out every job that it took in: none
/// waits, and the jobs sent are the jobs that waited at the start followed
/// by those accepted, each once.
pub proof fn law_terminated_means_all_sent<J>(s: PoolState<J>, msgs: Seq<JobMessage<J>>)
    requires
        s.wf(),
        s.admits_all(msgs),
        s.run(msgs).phase == Phase::Terminated,
    ensures
        s.run(msgs).pending.len() == 0,
        s.run(msgs).idle.len() == s.workers,
        dispatched(s.run_effects(msgs)) == s.pending + s.accepted(msgs),
{
    law_idle_means_empty_queue(s, msgs);
    law_jobs_leave_in_order(s, msgs);
    assert(dispatched(s.run_effects(msgs)) + s.run(msgs).pending =~= dispatched(
        s.run_effects(msgs),
    ));
}

/// After a shutdown was asked for, the pool accepts no job, and it owes one
/// piece of work less with every report of a worker that holds a job. It is
/// terminated exactly when it owes nothing: when as many such reports have
/// come as jobs waited or were held at the start.
pub proof fn law_shutdown_counts_down<J>(s: PoolState<J>, msgs: Seq<JobMessage<J>>)
    requires
        s.wf(),
        s.admits_all(msgs),
        s.phase != Phase::Running,
    ensures
        s.accepted(msgs) == Seq::<J>::empty(),
        s.run(msgs).phase != Phase::Running,
        s.run(msgs).outstanding() == s.outstanding() - s.completions(msgs),
        s.run(msgs).phase == Phase::Terminated <==> s.completions(msgs) == s.outstanding(),
        0 <= s.completions(msgs) <= s.outstanding(),
    decreases msgs.len(),
{
    if msgs.len() == 0 || s.phase == Phase::Terminated {
    } else {
        let m = msgs[0];
        let t = s.next(m);
        let rest = msgs.drop_first();
        lemma_admits_rest(s, msgs);
        lemma_next_wf(s, m);
        law_shutdown_counts_down(t, rest);
        assert(s.takes(m) + t.accepted(rest) =~= Seq::<J>::empty());
    }
}

/// A shutdown tells each worker to stop exactly once. In a run that starts
/// before the shutdown nobody is told before it. If no job waits at the
/// shutdown, every worker is told at that step and nobody afterwards; if
/// jobs wait, the workers told so far are those that have fallen idle
/// since, in that order. Either way every worker of the pool has been told
/// once, and none twice, when the pool is terminated.
pub proof fn law_each_worker_told_once<J>(s: PoolState<J>, msgs: Seq<JobMessage<J>>)
    requires
        s.wf(),
        s.admits_all(msgs),
        s.phase == Phase::Running,
    ensures
        s.run(msgs).phase == Phase::Running ==> halted(s.run_effects(msgs)) == Seq::<usize>::empty(),
        s.run(msgs).phase != Phase::Running ==> halted(s.run_effects(msgs)) == if s.run(msgs).told {
            s.everyone()
        } else {
            s.run(msgs).idle
        },
        s.run(msgs).phase == Phase::Terminated ==> {
            &&& halted(s.run_effects(msgs)).no_duplicates()
            &&& halted(s.run_effects(msgs)).len() == s.workers
            &&& forall|w: usize| w < s.workers ==> halted(s.run_effects(msgs)).contains(w)
        },
    decreases msgs.len(),
{
    if msgs.len() == 0 {
    } else {
        let m = msgs[0];
        let t = s.next(m);
        let rest = msgs.drop_first();
        lemma_admits_rest(s, msgs);
        lemma_next_wf(s, m);
        lemma_dispatched_cons(s.effect(m), t.run_effects(rest));
        if t.phase == Phase::Running {
            law_each_worker_told_once(t, rest);
            assert(told_of(s.effect(m)) + halted(t.run_effects(rest)) =~= halted(
                t.run_effects(rest),
            ));
        } else {
            lemma_told_while_draining(t, rest);
            if t.told {
                assert(s.everyone() + Seq::<usize>::empty() =~= s.everyone());
            } else {
                assert(t.idle =~= Seq::<usize>::empty());
                assert(Seq::<usize>::empty() + halted(t.run_effects(rest)) =~= halted(
                    t.run_effects(rest),
                ));
                assert(t.idle + halted(t.run_effects(rest)) =~= halted(t.run_effects(rest)));
            }
        }
    }
    if s.run(msgs).phase == Phase::Terminated {
        law_idle_means_empty_queue(s, msgs);
        lemma_distinct_below(s.run(msgs).idle, s.workers);
        if s.run(msgs).told {
            let all = s.everyone();
            assert forall|w: usize| w < s.workers implies all.contains(w) by {
                assert(all[w as int] == w);
            }
            assert forall|i: int, j: int| 0 <= i < all.len() && 0 <= j < all.len() && i != j implies all[i]
                != all[j] by {
                assert(all[i] == i as usize && all[j] == j as usize);
            }
        }
    }
}

proof fn lemma_told_while_draining<J>(s: PoolState<J>, msgs: Seq<JobMessage<J>>)
    requires
        s.wf(),
        s.admits_all(msgs),
        s.phase != Phase::Running,
    ensures
        s.run(msgs).phase != Phase::Running,
        s.run(msgs).told == s.told,
        s.told ==> halted(s.run_effects(msgs)) == Seq::<usize>::empty(),
        !s.told ==> s.idle + halted(s.run_effects(msgs)) == s.run(msgs).idle,
    decreases msgs.len(),
{
    if msgs.len() == 0 || s.phase == Phase::Terminated {
        assert(s.idle + halted(s.run_effects(msgs)) =~= s.idle);
    } else {
        let m = msgs[0];
        let t = s.next(m);
        let rest = msgs.drop_first();
        lemma_admits_rest(s, msgs);
        lemma_next_wf(s, m);
        lemma_told_while_draining(t, rest);
        lemma_dispatched_cons(s.effect(m), t.run_effects(rest));
        if s.told {
            assert(told_of(s.effect(m)) + halted(t.run_effects(rest)) =~= Seq::<usize>::empty());
        } else {
            assert(s.idle + told_of(s.effect(m)) =~= t.idle);
            assert(s.idle + (told_of(s.effect(m)) + halted(t.run_effects(rest)))
                =~= (s.idle + told_of(s.effect(m))) + halted(t.run_effects(rest)));
        }
    }
}

/// How many jobs an effect sends to worker `w`.
pub open spec fn gives<J>(e: Effect<J>, w: usize) -> int {
    match e {
        Effect::Run(v, _) => if v == w {
            1
        } else {
            0
        },
        _ => 0,
    }
}

impl<J> PoolState<J> {
    /// How many jobs worker `w` holds: none if it is idle, else one.
    pub open spec fn holds(self, w: usize) -> int {
        if self.idle.contains(w) {
            0
        } else {
            1
        }
    }

    /// How many jobs a message reports as ended by worker `w`.
    pub open spec fn hands_back(self, m: JobMessage<J>, w: usize) -> int {
        match m {
            JobMessage::WorkerDone(v, _) => if v == w && self.completes(m) {
                1
            } else {
                0
            },
            _ => 0,
        }
    }

    /// How many jobs a run over `msgs` sends to worker `w`.
    pub open spec fn given(self, msgs: Seq<JobMessage<J>>, w: usize) -> int
        decreases msgs.len(),
    {
        if msgs.len() == 0 || self.phase == Phase::Terminated {
            0
        } else {
            gives(self.effect(msgs[0]), w) + self.next(msgs[0]).given(msgs.drop_first(), w)
        }
    }

    /// How many jobs worker `w` reports as ended in a run over `msgs`.
    pub open spec fn returned(self, msgs: Seq<JobMessage<J>>, w: usize) -> int
        decreases msgs.len(),
    {
        if msgs.len() == 0 || self.phase == Phase::Terminated {
            0
        } else {
            self.hands_back(msgs[0], w) + self.next(msgs[0]).returned(msgs.drop_first(), w)
        }
    }
}

/// A worker is idle exactly while no job that it was sent is still to be
/// reported: over any run, the jobs that a worker holds at the end are
/// those that it held at the start and those that it was sent, less those
/// that it reported as ended; and it never holds more than one.
pub proof fn law_idle_means_no_job_in_flight<J>(s: PoolState<J>, msgs: Seq<JobMessage<J>>, w: usize)
    requires
        s.wf(),
        s.admits_all(msgs),
        w < s.workers,
    ensures
        s.run(msgs).holds(w) == s.holds(w) + s.given(msgs, w) - s.returned(msgs, w),
        s.run(msgs).idle.contains(w) <==> s.holds(w) + s.given(msgs, w) == s.returned(msgs, w),
    decreases msgs.len(),
{
    if msgs.len() == 0 || s.phase == Phase::Terminated {
    } else {
        let m = msgs[0];
        let t = s.next(m);
        lemma_admits_rest(s, msgs);
        lemma_next_wf(s, m);
        law_idle_means_no_job_in_flight(t, msgs.drop_first(), w);
        assert(t.holds(w) == s.holds(w) + gives(s.effect(m), w) - s.hands_back(m, w)) by {
            match m {
                JobMessage::NewJob(_) => {
                    if s.phase == Phase::Running && s.idle.len() > 0 {
                        let last = s.idle.len() - 1;
                        if t.idle.contains(w) {
                            let k = t.idle.index_of(w);
                            assert(s.idle[k] == w);
                        }
                        if s.idle.contains(w) && w != s.idle.last() {
                            let k = s.idle.index_of(w);
                            assert(t.idle[k] == w);
                        }
                    }
                },
                JobMessage::WorkerDone(v, _) => {
                    if s.phase != Phase::Terminated && !s.idle.contains(v) && s.pending.len() == 0 {
                        assert(t.idle == s.idle.push(v));
                        assert(t.idle[s.idle.len() as int] == v);
                        if s.idle.contains(w) {
                            let k = s.idle.index_of(w);
                            assert(t.idle[k] == w);
                        }
                        if t.idle.contains(w) && w != v {
                            let k = t.idle.index_of(w);
                            assert(s.idle[k] == w);
                        }
                    }
                },
                JobMessage::Stop => {},
            }
        }
    }
}

impl<J> PoolState<J> {
    /// Whether worker `w` has been told to stop: at the shutdown with all
    /// the others, or when it fell idle after it.
    pub open spec fn has_told(self, w: usize) -> bool {
        self.phase != Phase::Running && (self.told || self.idle.contains(w))
    }
}

proof fn lemma_told_gets_no_job<J>(s: PoolState<J>, msgs: Seq<JobMessage<J>>, w: usize)
    requires
        s.wf(),
        s.admits_all(msgs),
        s.has_told(w),
    ensures
        forall|j: int|
            0 <= j < s.run_effects(msgs).len() ==> #[trigger] gives(s.run_effects(msgs)[j], w) == 0,
    decreases msgs.len(),
{
    if msgs.len() == 0 || s.phase == Phase::Terminated {
    } else {
        let m = msgs[0];
        let t = s.next(m);
        let rest = msgs.drop_first();
        lemma_admits_rest(s, msgs);
        lemma_next_wf(s, m);
        assert(t.has_told(w)) by {
            if !s.told {
                let k = s.idle.index_of(w);
                assert(s.idle[k] == w);
                match m {
                    JobMessage::WorkerDone(v, _) => {
                        if t.idle != s.idle {
                            assert(t.idle == s.idle.push(v));
                            assert(t.idle[k] == w);
                        }
                    },
                    _ => {},
                }
            }
        }
        lemma_told_gets_no_job(t, rest, w);
        let es = s.run_effects(msgs);
        assert forall|j: int| 0 <= j < es.len() implies #[trigger] gives(es[j], w) == 0 by {
            if j > 0 {
                assert(es[j] == t.run_effects(rest)[j - 1]);
            }
        }
    }
}

/// No worker is told to stop before a job that it is still sent: in any
/// run, once an effect has told a worker to stop, no later effect sends
/// that worker a job.
pub proof fn law_no_job_after_stop<J>(s: PoolState<J>, msgs: Seq<JobMessage<J>>)
    requires
        s.wf(),
        s.admits_all(msgs),
    ensures
        forall|i: int, j: int, w: usize|
            0 <= i < j < s.run_effects(msgs).len() && #[trigger] told_of(
                s.run_effects(msgs)[i],
            ).contains(w) ==> #[trigger] gives(s.run_effects(msgs)[j], w) == 0,
    decreases msgs.len(),
{
    if msgs.len() == 0 || s.phase == Phase::Terminated {
    } else {
        let m = msgs[0];
        let t = s.next(m);
        let rest = msgs.drop_first();
        let es = s.run_effects(msgs);
        let later = t.run_effects(rest);
        lemma_admits_rest(s, msgs);
        lemma_next_wf(s, m);
        law_no_job_after_stop(t, rest);
        assert forall|i: int, j: int, w: usize|
            0 <= i < j < es.len() && #[trigger] told_of(es[i]).contains(w) implies #[trigger] gives(
            es[j],
            w,
        ) == 0 by {
            assert(es[j] == later[j - 1]);
            if i > 0 {
                assert(es[i] == later[i - 1]);
            } else {
                assert(es[0] == s.effect(m));
                assert(t.has_told(w)) by {
                    match m {
                        JobMessage::WorkerDone(v, _) => {
                            assert(seq![v].contains(w) ==> w == v);
                            assert(t.idle == s.idle.push(v));
                            assert(t.idle[s.idle.len() as int] == v);
                        },
                        _ => {},
                    }
                }
                lemma_told_gets_no_job(t, rest, w);
            }
        }
    }
}

} // verus!
