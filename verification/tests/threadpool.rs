use labkit::threadpool::message::{Action, JobMessage, JobOutcome, Phase};
use labkit::threadpool::pool::ThreadPool;
use labkit::threadpool::scheduler::Scheduler;
use labkit::threadpool::worker::{Worker, WorkerStep};
use std::collections::VecDeque;

/// A pool run on one thread: the scheduler's inbox, one channel for each
/// worker, and a record of what the workers ran. A job is a number; to run
/// it is to write it down.
struct Bench {
    scheduler: Scheduler<u32>,
    workers: Vec<Worker>,
    inbox: VecDeque<JobMessage<u32>>,
    channels: Vec<VecDeque<JobMessage<u32>>>,
    sent: Vec<u32>,
    ran: Vec<(usize, u32)>,
    refused: Vec<u32>,
    stops: Vec<usize>,
}

impl Bench {
    fn new(size: usize) -> (ThreadPool, Bench) {
        let pool = ThreadPool::new(size);
        let bench = Bench {
            scheduler: pool.scheduler(),
            workers: pool.workers(),
            inbox: VecDeque::new(),
            channels: (0..size).map(|_| VecDeque::new()).collect(),
            sent: Vec::new(),
            ran: Vec::new(),
            refused: Vec::new(),
            stops: Vec::new(),
        };
        (pool, bench)
    }

    /// The scheduler takes everything that lies in its inbox.
    fn dispatch(&mut self) {
        while let Some(msg) = self.inbox.pop_front() {
            if self.scheduler.phase() == Phase::Terminated {
                self.inbox.clear();
                return;
            }
            match self.scheduler.step(msg) {
                Action::Run(w, job) => {
                    self.sent.push(job);
                    self.channels[w].push_back(JobMessage::NewJob(job));
                }
                Action::Wait => {}
                Action::Refuse(job) => self.refused.push(job),
                Action::Halt(ws) => {
                    for w in ws {
                        self.stops.push(w);
                        self.channels[w].push_back(JobMessage::Stop);
                    }
                }
            }
        }
    }

    /// Worker `w` takes the next message of its channel, if there is one,
    /// and does what it asks.
    fn work(&mut self, w: usize) -> bool {
        let msg = match self.channels[w].pop_front() {
            Some(msg) => msg,
            None => return false,
        };
        match self.workers[w].receive(msg) {
            WorkerStep::Execute(job) => {
                self.ran.push((w, job));
                let report = self.workers[w].report(JobOutcome::Completed);
                self.inbox.push_back(report);
            }
            WorkerStep::Exit => {
                let report = self.workers[w].report(JobOutcome::Completed);
                self.inbox.push_back(report);
            }
            WorkerStep::Ignore => {}
        }
        true
    }

    /// Scheduler and workers take turns until nothing is left to do.
    fn settle(&mut self) {
        loop {
            self.dispatch();
            let mut moved = false;
            for w in 0..self.workers.len() {
                if self.work(w) {
                    moved = true;
                }
            }
            if !moved && self.inbox.is_empty() {
                return;
            }
        }
    }

    fn jobs_run(&self) -> Vec<u32> {
        self.ran.iter().map(|r| r.1).collect()
    }
}

#[test]
fn scenario_a_five_jobs_on_two_workers() {
    let (pool, mut bench) = Bench::new(2);
    for job in 1..=5 {
        bench.inbox.push_back(pool.execute(job));
    }
    bench.settle();
    assert_eq!(bench.sent, vec![1, 2, 3, 4, 5]);
    let mut ran = bench.jobs_run();
    ran.sort();
    assert_eq!(ran, vec![1, 2, 3, 4, 5]);
    assert_eq!(bench.scheduler.idle_workers(), 2);
    assert_eq!(bench.scheduler.pending_jobs(), 0);
    assert_eq!(bench.scheduler.phase(), Phase::Running);
}

#[test]
fn scenario_b_fast_job_waits_for_slow_job() {
    let (pool, mut bench) = Bench::new(1);
    bench.inbox.push_back(pool.execute(100));
    bench.inbox.push_back(pool.execute(1));
    bench.dispatch();
    // The slow job is with the worker, the fast one waits.
    assert_eq!(bench.scheduler.pending_jobs(), 1);
    assert_eq!(bench.channels[0].len(), 1);
    assert!(bench.ran.is_empty());
    // Only the slow job's end sets the fast job free.
    assert!(bench.work(0));
    assert_eq!(bench.ran, vec![(0, 100)]);
    assert!(bench.channels[0].is_empty());
    bench.dispatch();
    assert_eq!(bench.scheduler.pending_jobs(), 0);
    assert!(bench.work(0));
    assert_eq!(bench.ran, vec![(0, 100), (0, 1)]);
}

#[test]
fn scenario_c_shutdown_with_three_jobs_waiting() {
    let (pool, mut bench) = Bench::new(2);
    bench.inbox.push_back(pool.execute(10));
    bench.inbox.push_back(pool.execute(11));
    bench.dispatch();
    assert_eq!(bench.scheduler.idle_workers(), 0);
    for job in 1..=3 {
        bench.inbox.push_back(pool.execute(job));
    }
    let late = pool.execute(99);
    bench.inbox.push_back(pool.stop());
    bench.inbox.push_back(late);
    bench.dispatch();
    assert_eq!(bench.scheduler.phase(), Phase::Draining);
    assert_eq!(bench.scheduler.pending_jobs(), 3);
    assert_eq!(bench.refused, vec![99]);
    assert!(bench.stops.is_empty());
    bench.settle();
    assert_eq!(bench.scheduler.phase(), Phase::Terminated);
    let mut ran = bench.jobs_run();
    ran.sort();
    assert_eq!(ran, vec![1, 2, 3, 10, 11]);
    assert_eq!(bench.sent, vec![10, 11, 1, 2, 3]);
    let mut stops = bench.stops.clone();
    stops.sort();
    assert_eq!(stops, vec![0, 1]);
    assert!(bench.workers.iter().all(|w| w.is_stopped()));
    assert_eq!(bench.refused, vec![99]);
}

#[test]
fn scenario_d_shutdown_of_an_idle_pool() {
    let (pool, mut bench) = Bench::new(3);
    let action = bench.scheduler.step(pool.stop());
    assert_eq!(bench.scheduler.phase(), Phase::Terminated);
    match action {
        Action::Halt(ws) => assert_eq!(ws, vec![0, 1, 2]),
        _ => panic!("a shutdown tells the workers to stop"),
    }
    assert!(bench.ran.is_empty());
}

#[test]
fn no_job_goes_to_two_workers() {
    let (pool, mut bench) = Bench::new(3);
    for job in 0..20 {
        bench.inbox.push_back(pool.execute(job));
        if job % 4 == 0 {
            bench.settle();
        }
    }
    bench.settle();
    let mut ran = bench.jobs_run();
    assert_eq!(ran.len(), 20);
    ran.sort();
    ran.dedup();
    assert_eq!(ran.len(), 20);
}

#[test]
fn jobs_that_wait_leave_in_the_order_of_submission() {
    let mut s: Scheduler<u32> = Scheduler::new(1);
    assert!(matches!(s.step(JobMessage::NewJob(0)), Action::Run(0, 0)));
    assert!(matches!(s.step(JobMessage::NewJob(1)), Action::Wait));
    assert!(matches!(s.step(JobMessage::NewJob(2)), Action::Wait));
    assert!(matches!(
        s.step(JobMessage::WorkerDone(0, JobOutcome::Completed)),
        Action::Run(0, 1)
    ));
    assert!(matches!(
        s.step(JobMessage::WorkerDone(0, JobOutcome::Faulted)),
        Action::Run(0, 2)
    ));
    assert!(matches!(
        s.step(JobMessage::WorkerDone(0, JobOutcome::Completed)),
        Action::Wait
    ));
    assert_eq!(s.idle_workers(), 1);
}

#[test]
fn a_job_goes_to_the_worker_that_fell_idle_last() {
    let mut s: Scheduler<u32> = Scheduler::new(3);
    assert!(matches!(s.step(JobMessage::NewJob(7)), Action::Run(2, 7)));
    assert!(matches!(s.step(JobMessage::NewJob(8)), Action::Run(1, 8)));
    assert!(matches!(
        s.step(JobMessage::WorkerDone(2, JobOutcome::Completed)),
        Action::Wait
    ));
    assert!(matches!(s.step(JobMessage::NewJob(9)), Action::Run(2, 9)));
}

#[test]
fn a_report_of_an_idle_worker_changes_nothing() {
    let mut s: Scheduler<u32> = Scheduler::new(2);
    assert!(matches!(
        s.step(JobMessage::WorkerDone(1, JobOutcome::Completed)),
        Action::Wait
    ));
    assert_eq!(s.idle_workers(), 2);
    assert_eq!(s.phase(), Phase::Running);
}

#[test]
fn a_shutdown_while_no_job_waits_tells_every_worker_at_once() {
    let mut s: Scheduler<u32> = Scheduler::new(2);
    assert!(matches!(s.step(JobMessage::NewJob(1)), Action::Run(1, 1)));
    // Worker 1 is busy, worker 0 is idle, nothing waits: both are told.
    match s.step(JobMessage::Stop) {
        Action::Halt(ws) => assert_eq!(ws, vec![0, 1]),
        _ => panic!("a shutdown tells the workers to stop"),
    }
    assert_eq!(s.phase(), Phase::Draining);
    assert!(matches!(s.step(JobMessage::NewJob(2)), Action::Refuse(2)));
    assert!(matches!(s.step(JobMessage::Stop), Action::Wait));
    // The acknowledgement of the idle worker changes nothing.
    assert!(matches!(
        s.step(JobMessage::WorkerDone(0, JobOutcome::Completed)),
        Action::Wait
    ));
    assert_eq!(s.phase(), Phase::Draining);
    // The busy worker was told already: its report brings no second stop.
    assert!(matches!(
        s.step(JobMessage::WorkerDone(1, JobOutcome::Completed)),
        Action::Wait
    ));
    assert_eq!(s.phase(), Phase::Terminated);
    assert!(matches!(s.step(JobMessage::NewJob(3)), Action::Refuse(3)));
    assert!(matches!(
        s.step(JobMessage::WorkerDone(1, JobOutcome::Completed)),
        Action::Wait
    ));
    assert_eq!(s.phase(), Phase::Terminated);
}

#[test]
fn a_shutdown_while_jobs_wait_tells_each_worker_when_it_falls_idle() {
    let mut s: Scheduler<u32> = Scheduler::new(2);
    assert!(matches!(s.step(JobMessage::NewJob(1)), Action::Run(1, 1)));
    assert!(matches!(s.step(JobMessage::NewJob(2)), Action::Run(0, 2)));
    assert!(matches!(s.step(JobMessage::NewJob(3)), Action::Wait));
    assert!(matches!(&s.step(JobMessage::Stop), Action::Halt(ws) if ws.is_empty()));
    assert_eq!(s.phase(), Phase::Draining);
    assert!(matches!(s.step(JobMessage::NewJob(4)), Action::Refuse(4)));
    assert!(matches!(
        s.step(JobMessage::WorkerDone(0, JobOutcome::Completed)),
        Action::Run(0, 3)
    ));
    assert!(matches!(
        &s.step(JobMessage::WorkerDone(1, JobOutcome::Completed)),
        Action::Halt(ws) if ws == &vec![1]
    ));
    // The acknowledgement of worker 1 changes nothing.
    assert!(matches!(
        s.step(JobMessage::WorkerDone(1, JobOutcome::Completed)),
        Action::Wait
    ));
    assert_eq!(s.phase(), Phase::Draining);
    assert!(matches!(
        &s.step(JobMessage::WorkerDone(0, JobOutcome::Completed)),
        Action::Halt(ws) if ws == &vec![0]
    ));
    assert_eq!(s.phase(), Phase::Terminated);
}

#[test]
fn a_worker_that_is_told_while_busy_ends_its_job_first() {
    let (pool, mut bench) = Bench::new(2);
    bench.inbox.push_back(pool.execute(1));
    bench.inbox.push_back(pool.stop());
    bench.dispatch();
    let mut stops = bench.stops.clone();
    stops.sort();
    assert_eq!(stops, vec![0, 1]);
    // The job lies before the stop in the busy worker's channel.
    assert_eq!(bench.channels[1].len(), 2);
    bench.settle();
    assert_eq!(bench.ran, vec![(1, 1)]);
    assert_eq!(bench.stops.len(), 2);
    assert!(bench.workers.iter().all(|w| w.is_stopped()));
    assert_eq!(bench.scheduler.phase(), Phase::Terminated);
}

#[test]
fn run_stops_reading_at_termination() {
    let mut s: Scheduler<u32> = Scheduler::new(1);
    let actions = s.run(vec![
        JobMessage::NewJob(1),
        JobMessage::NewJob(2),
        JobMessage::Stop,
        JobMessage::WorkerDone(0, JobOutcome::Completed),
        JobMessage::WorkerDone(0, JobOutcome::Completed),
        JobMessage::NewJob(3),
        JobMessage::Stop,
    ]);
    assert_eq!(actions.len(), 5);
    assert!(matches!(actions[0], Action::Run(0, 1)));
    assert!(matches!(actions[1], Action::Wait));
    assert!(matches!(&actions[2], Action::Halt(ws) if ws.is_empty()));
    assert!(matches!(actions[3], Action::Run(0, 2)));
    assert!(matches!(&actions[4], Action::Halt(ws) if ws == &vec![0]));
    assert_eq!(s.phase(), Phase::Terminated);
}

#[test]
fn a_worker_runs_jobs_until_it_is_told_to_stop() {
    let mut w = Worker::new(4);
    assert_eq!(w.id(), 4);
    assert!(matches!(w.receive(JobMessage::NewJob(1u8)), WorkerStep::Execute(1)));
    assert!(matches!(
        w.receive(JobMessage::<u8>::WorkerDone(4, JobOutcome::Completed)),
        WorkerStep::Ignore
    ));
    assert!(!w.is_stopped());
    assert!(matches!(w.receive(JobMessage::<u8>::Stop), WorkerStep::Exit));
    assert!(w.is_stopped());
    assert!(matches!(w.receive(JobMessage::NewJob(2u8)), WorkerStep::Ignore));
    assert!(matches!(w.receive(JobMessage::<u8>::Stop), WorkerStep::Ignore));
    assert!(matches!(
        w.report::<u8>(JobOutcome::Faulted),
        JobMessage::WorkerDone(4, JobOutcome::Faulted)
    ));
}

#[test]
fn the_pool_names_the_messages() {
    let pool = ThreadPool::new(2);
    assert_eq!(pool.size(), 2);
    let ids: Vec<usize> = pool.workers().iter().map(|w| w.id()).collect();
    assert_eq!(ids, vec![0, 1]);
    assert!(matches!(pool.execute(5u8), JobMessage::NewJob(5)));
    assert!(matches!(pool.stop::<u8>(), JobMessage::Stop));
}

#[test]
fn a_worker_is_idle_only_while_no_job_waits() {
    let mut s: Scheduler<u32> = Scheduler::new(2);
    let events = vec![
        JobMessage::NewJob(1),
        JobMessage::NewJob(2),
        JobMessage::NewJob(3),
        JobMessage::WorkerDone(1, JobOutcome::Completed),
        JobMessage::NewJob(4),
        JobMessage::WorkerDone(0, JobOutcome::Completed),
        JobMessage::WorkerDone(0, JobOutcome::Completed),
        JobMessage::WorkerDone(1, JobOutcome::Completed),
        JobMessage::Stop,
        JobMessage::NewJob(5),
        JobMessage::WorkerDone(0, JobOutcome::Completed),
    ];
    let mut shape = Vec::new();
    for e in events {
        s.step(e);
        assert!(s.idle_workers() == 0 || s.pending_jobs() == 0);
        shape.push((s.idle_workers(), s.pending_jobs()));
    }
    assert_eq!(
        shape,
        vec![
            (1, 0),
            (0, 0),
            (0, 1),
            (0, 0),
            (0, 1),
            (0, 0),
            (1, 0),
            (2, 0),
            (2, 0),
            (2, 0),
            (2, 0)
        ]
    );
    assert_eq!(s.phase(), Phase::Terminated);
}

#[test]
fn every_job_submitted_before_the_shutdown_is_run_once() {
    let (pool, mut bench) = Bench::new(3);
    for job in 0..10 {
        bench.inbox.push_back(pool.execute(job));
    }
    bench.inbox.push_back(pool.stop());
    bench.settle();
    assert_eq!(bench.scheduler.phase(), Phase::Terminated);
    assert_eq!(bench.sent, (0..10).collect::<Vec<u32>>());
    let mut ran = bench.jobs_run();
    ran.sort();
    assert_eq!(ran, (0..10).collect::<Vec<u32>>());
    assert!(bench.refused.is_empty());
    assert_eq!(bench.scheduler.idle_workers(), 3);
}

#[test]
fn a_job_that_fails_gives_its_worker_back() {
    let mut s: Scheduler<u32> = Scheduler::new(1);
    assert!(matches!(s.step(JobMessage::NewJob(1)), Action::Run(0, 1)));
    assert!(matches!(
        s.step(JobMessage::WorkerDone(0, JobOutcome::Faulted)),
        Action::Wait
    ));
    assert_eq!(s.idle_workers(), 1);
    assert!(matches!(s.step(JobMessage::NewJob(2)), Action::Run(0, 2)));
}
