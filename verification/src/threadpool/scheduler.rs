use std::collections::VecDeque;
use vstd::prelude::*;
use crate::threadpool::message::{Action, Effect, JobMessage, Phase};
use crate::threadpool::state::PoolState;

verus! {

/// The single owner of the pool's bookkeeping. It sends and receives
/// nothing itself: its driver hands it each message that arrives and carries
/// out the action that comes back.
pub struct Scheduler<J> {
    job_queue: VecDeque<J>,
    free_workers: Vec<usize>,
    size: usize,
    phase: Phase,
    told: bool,
}

/// The actions of a run as mathematical values.
pub open spec fn effects_of<J>(actions: Seq<Action<J>>) -> Seq<Effect<J>> {
    actions.map_values(|a: Action<J>| a@)
}

impl<J> View for Scheduler<J> {
    type V = PoolState<J>;

    closed spec fn view(&self) -> PoolState<J> {
        PoolState {
            pending: self.job_queue@,
            idle: self.free_workers@,
            workers: self.size as nat,
            phase: self.phase,
            told: self.told,
        }
    }
}

impl<J> Scheduler<J> {
    /// The invariant that `new` establishes and every method keeps.
    pub open spec fn wf(&self) -> bool {
        self@.wf()
    }

    /// The scheduler of a pool of `size` workers, all of them idle and none
    /// with a job: worker `size - 1` fell idle last.
    pub fn new(size: usize) -> (s: Self)
        requires
            size >= 1,
        ensures
            s.wf(),
            s@.workers == size,
            s@.phase == Phase::Running,
            !s@.told,
            s@.pending == Seq::<J>::empty(),
            s@.idle == Seq::new(size as nat, |i: int| i as usize),
    {
        let mut free_workers: Vec<usize> = Vec::new();
        let mut id: usize = 0;
        while id < size
            invariant
                id <= size,
                free_workers@ == Seq::new(id as nat, |i: int| i as usize),
            decreases size - id,
        {
            free_workers.push(id);
            id += 1;
            assert(free_workers@ =~= Seq::new(id as nat, |i: int| i as usize));
        }
        Scheduler {
            job_queue: VecDeque::new(),
            free_workers,
            size,
            phase: Phase::Running,
            told: false,
        }
    }

    /// Where the scheduler stands.
    pub fn phase(&self) -> (p: Phase)
        ensures
            p == self@.phase,
    {
        self.phase
    }

    /// How many workers are idle.
    pub fn idle_workers(&self) -> (n: usize)
        ensures
            n == self@.idle.len(),
    {
        self.free_workers.len()
    }

    /// How many jobs wait for a worker.
    pub fn pending_jobs(&self) -> (n: usize)
        ensures
            n == self@.pending.len(),
    {
        self.job_queue.len()
    }

    fn is_free(&self, w: usize) -> (b: bool)
        ensures
            b == self@.idle.contains(w),
    {
        let mut i: usize = 0;
        while i < self.free_workers.len()
            invariant
                i <= self.free_workers.len(),
                forall|k: int| 0 <= k < i ==> self.free_workers@[k] != w,
            decreases self.free_workers.len() - i,
        {
            if self.free_workers[i] == w {
                return true;
            }
            i += 1;
        }
        false
    }

    fn settled(&self) -> (p: Phase)
        ensures
            p == self@.settle(self@.idle.len()),
    {
        if self.free_workers.len() == self.size {
            Phase::Terminated
        } else {
            Phase::Draining
        }
    }

    fn everyone(&self) -> (ws: Vec<usize>)
        ensures
            ws@ == self@.everyone(),
    {
        let mut ws: Vec<usize> = Vec::new();
        let mut id: usize = 0;
        while id < self.size
            invariant
                id <= self.size,
                ws@ == Seq::new(id as nat, |i: int| i as usize),
            decreases self.size - id,
        {
            ws.push(id);
            id += 1;
            assert(ws@ =~= Seq::new(id as nat, |i: int| i as usize));
        }
        ws
    }

    /// Takes one message and says what is to be sent.
    ///
    /// A job goes to the worker that fell idle last, or to the back of the
    /// queue when none is idle; once a shutdown was asked for it is handed
    /// back. A worker's report gives that worker the oldest waiting job; with
    /// none waiting the worker falls idle, and during a shutdown it is told
    /// to stop. A report from a worker that is idle already changes nothing.
    /// A shutdown while no job waits tells every worker to stop, idle or
    /// busy: none of them will be sent a job any more. A shutdown while jobs
    /// wait tells nobody at once: each worker is told when it falls idle,
    /// so none is told before work that it will still be given. The pool is
    /// terminated once a shutdown was asked for and every worker is idle;
    /// from then on no message changes anything.
    pub fn step(&mut self, msg: JobMessage<J>) -> (action: Action<J>)
        requires
            old(self).wf(),
            old(self)@.admits(msg),
        ensures
            final(self).wf(),
            final(self)@ == old(self)@.next(msg),
            action@ == old(self)@.effect(msg),
    {
        proof {
            lemma_next_wf(self@, msg);
        }
        match msg {
            JobMessage::NewJob(job) => {
                if self.phase != Phase::Running {
                    Action::Refuse(job)
                } else {
                    match self.free_workers.pop() {
                        Some(w) => Action::Run(w, job),
                        None => {
                            self.job_queue.push_back(job);
                            Action::Wait
                        },
                    }
                }
            },
            JobMessage::WorkerDone(w, _) => {
                if self.phase == Phase::Terminated || self.is_free(w) {
                    Action::Wait
                } else {
                    match self.job_queue.pop_front() {
                        Some(job) => {
                            assert(self.job_queue@ =~= old(self).job_queue@.drop_first());
                            Action::Run(w, job)
                        },
                        None => {
                            self.free_workers.push(w);
                            if self.phase == Phase::Running {
                                Action::Wait
                            } else {
                                self.phase = self.settled();
                                if self.told {
                                    Action::Wait
                                } else {
                                    let mut last: Vec<usize> = Vec::new();
                                    last.push(w);
                                    assert(last@ =~= seq![w]);
                                    Action::Halt(last)
                                }
                            }
                        },
                    }
                }
            },
            JobMessage::Stop => {
                if self.phase != Phase::Running {
                    Action::Wait
                } else if self.job_queue.len() == 0 {
                    self.phase = self.settled();
                    self.told = true;
                    Action::Halt(self.everyone())
                } else {
                    self.phase = self.settled();
                    Action::Halt(Vec::new())
                }
            },
        }
    }
}

impl<J> Scheduler<J> {
    /// Takes the messages in order, as `step` does, until they are used up
    /// or the pool is terminated, and gives the action for each message
    /// taken. Messages behind the one that terminates the pool are dropped
    /// unread.
    pub fn run(&mut self, events: Vec<JobMessage<J>>) -> (actions: Vec<Action<J>>)
        requires
            old(self).wf(),
            forall|i: int| 0 <= i < events.len() ==> old(self)@.admits(#[trigger] events[i]),
        ensures
            final(self).wf(),
            final(self)@ == old(self)@.run(events@),
            final(self)@.workers == old(self)@.workers,
            effects_of(actions@) == old(self)@.run_effects(events@),
    {
        let mut actions: Vec<Action<J>> = Vec::new();
        let ghost start = self@;
        let ghost all = events@;
        let mut rest: Vec<JobMessage<J>> = reversed(events);
        let ghost mut taken: int = 0;
        assert(effects_of(actions@) =~= Seq::<Effect<J>>::empty());
        assert(all.skip(0) =~= all);
        loop
            invariant
                self.wf(),
                self@.workers == start.workers,
                0 <= taken <= all.len(),
                rest@.len() == all.len() - taken,
                forall|k: int| 0 <= k < rest@.len() ==> rest@[k] == all[all.len() - 1 - k],
                forall|i: int| 0 <= i < all.len() ==> start.admits(#[trigger] all[i]),
                start.run(all) == self@.run(all.skip(taken)),
                start.run_effects(all) == effects_of(actions@) + self@.run_effects(all.skip(taken)),
            ensures
                self.wf(),
                self@ == start.run(all),
                self@.workers == start.workers,
                effects_of(actions@) == start.run_effects(all),
            decreases rest@.len(),
        {
            if self.phase == Phase::Terminated {
                assert(effects_of(actions@) + Seq::<Effect<J>>::empty() =~= effects_of(actions@));
                break;
            }
            let ghost before = self@;
            let ghost done = effects_of(actions@);
            match rest.pop() {
                None => {
                    assert(all.skip(taken).len() == 0);
                    assert(effects_of(actions@) + Seq::<Effect<J>>::empty() =~= effects_of(actions@));
                    break;
                },
                Some(msg) => {
                    assert(msg == all[taken]);
                    assert(all.skip(taken)[0] == msg);
                    assert(all.skip(taken).drop_first() =~= all.skip(taken + 1));
                    assert(start.admits(all[taken]));
                    let action = self.step(msg);
                    actions.push(action);
                    assert(effects_of(actions@) =~= done + seq![before.effect(msg)]);
                    proof {
                        taken = taken + 1;
                    }
                },
            }
        }
        actions
    }
}

/// The items of `v` in reverse order.
fn reversed<T>(v: Vec<T>) -> (r: Vec<T>)
    ensures
        r@ == v@.reverse(),
{
    let mut v = v;
    let ghost all = v@;
    let mut r: Vec<T> = Vec::new();
    loop
        invariant
            v@.len() + r@.len() == all.len(),
            v@ == all.take(v@.len() as int),
            forall|k: int| 0 <= k < r@.len() ==> r@[k] == all[all.len() - 1 - k],
        ensures
            r@ == all.reverse(),
        decreases v@.len(),
    {
        match v.pop() {
            None => {
                assert(r@ =~= all.reverse());
                break;
            },
            Some(x) => {
                r.push(x);
            },
        }
    }
    r
}

/// A sequence without repeats whose items all lie below `n` has at most `n`
/// items, and with `n` items it holds every number below `n`.
pub proof fn lemma_distinct_below(s: Seq<usize>, n: nat)
    requires
        s.no_duplicates(),
        forall|i: int| 0 <= i < s.len() ==> #[trigger] s[i] < n,
    ensures
        s.len() <= n,
        s.len() == n ==> forall|w: usize| w < n ==> s.contains(w),
    decreases n,
{
    if s.len() == 0 {
    } else if n == 0 {
        assert(s[0] < n);
    } else {
        let top = (n - 1) as usize;
        if s.contains(top) {
            let k = s.index_of(top);
            let rest = s.remove(k);
            assert(rest.no_duplicates()) by {
                assert forall|i: int, j: int| 0 <= i < rest.len() && 0 <= j < rest.len() && i != j
                    implies rest[i] != rest[j] by {
                    let a = if i < k { i } else { i + 1 };
                    let b = if j < k { j } else { j + 1 };
                    assert(rest[i] == s[a] && rest[j] == s[b]);
                }
            }
            assert forall|i: int| 0 <= i < rest.len() implies #[trigger] rest[i] < (n - 1) as nat by {
                let a = if i < k { i } else { i + 1 };
                assert(rest[i] == s[a]);
                assert(s[a] < n);
                assert(a != k);
            }
            lemma_distinct_below(rest, (n - 1) as nat);
            if s.len() == n {
                assert forall|w: usize| w < n implies s.contains(w) by {
                    if w != top {
                        assert(rest.contains(w));
                        let i = rest.index_of(w);
                        let a = if i < k { i } else { i + 1 };
                        assert(s[a] == w);
                    }
                }
            }
        } else {
            assert forall|i: int| 0 <= i < s.len() implies #[trigger] s[i] < (n - 1) as nat by {
                assert(s[i] < n);
                assert(s.contains(s[i]));
            }
            lemma_distinct_below(s, (n - 1) as nat);
        }
    }
}

/// One message keeps the invariant.
pub proof fn lemma_next_wf<J>(s: PoolState<J>, m: JobMessage<J>)
    requires
        s.wf(),
        s.admits(m),
    ensures
        s.next(m).wf(),
{
    let t = s.next(m);
    match m {
        JobMessage::NewJob(j) => {
            if s.phase == Phase::Running && s.idle.len() > 0 {
                assert(t.idle =~= s.idle.take(s.idle.len() - 1));
            }
        },
        JobMessage::WorkerDone(w, _) => {
            if s.phase != Phase::Terminated && !s.idle.contains(w) {
                if s.pending.len() == 0 {
                    lemma_distinct_below(s.idle, s.workers);
                    assert(s.idle.len() < s.workers);
                    assert(t.idle == s.idle.push(w));
                    assert(t.idle.no_duplicates()) by {
                        assert forall|i: int, j: int|
                            0 <= i < t.idle.len() && 0 <= j < t.idle.len() && i != j
                            implies t.idle[i] != t.idle[j] by {
                            if i < s.idle.len() {
                                assert(s.idle.contains(s.idle[i]));
                            }
                            if j < s.idle.len() {
                                assert(s.idle.contains(s.idle[j]));
                            }
                        }
                    }
                    assert forall|i: int| 0 <= i < t.idle.len() implies #[trigger] t.idle[i] < t.workers by {
                        if i < s.idle.len() {
                            assert(t.idle[i] == s.idle[i]);
                        }
                    }
                }
            }
        },
        JobMessage::Stop => {},
    }
}

} // verus!
