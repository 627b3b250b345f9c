use vstd::prelude::*;

verus! {

/// The count of a barrier: how many threads are inside, and whether the
/// barrier is open to let them out.
#[derive(Debug, Clone, Copy, PartialEq, Eq, Structural)]
pub struct BarrierState {
    pub waiting: usize,
    pub exiting: bool,
}

/// What a thread that arrives at a barrier does next.
#[derive(Debug, Clone, Copy, PartialEq, Eq, Structural)]
pub enum Arrival {
    /// The barrier is letting a round out: sleep until it has closed, then
    /// arrive again.
    Blocked,
    /// The round is full and the barrier is open: wake every sleeper, then
    /// leave.
    Opened,
    /// Sleep until the barrier opens, then leave.
    Waiting,
}

/// The bookkeeping of a barrier that lets threads pass in rounds of a
/// fixed size and can be used again after each round. It puts no thread
/// to sleep itself: whoever holds its lock asks it what to do.
#[derive(Debug)]
pub struct CiclicBarrier {
    size: usize,
    state: BarrierState,
}

impl CiclicBarrier {
    /// How many threads make a round.
    pub closed spec fn size(&self) -> nat {
        self.size as nat
    }

    pub closed spec fn state(&self) -> BarrierState {
        self.state
    }

    /// While the barrier is open at least one thread is inside, and never
    /// more than a round; while it is closed the round is not full.
    pub open spec fn wf(&self) -> bool {
        if self.state().exiting {
            0 < self.state().waiting <= self.size()
        } else {
            self.state().waiting < self.size() || self.size() == 0
        }
    }

    /// A closed barrier with nobody inside.
    pub fn new(n: usize) -> (b: CiclicBarrier)
        ensures
            b.wf(),
            b.size() == n,
            b.state() == (BarrierState { waiting: 0, exiting: false }),
    {
        CiclicBarrier { size: n, state: BarrierState { waiting: 0, exiting: false } }
    }

    /// Whether the barrier is open.
    pub fn is_open(&self) -> (b: bool)
        ensures
            b == self.state().exiting,
    {
        self.state.exiting
    }

    /// A thread arrives. At an open barrier it is turned back; at a closed
    /// one it goes inside, and the one that fills the round opens the
    /// barrier.
    pub fn arrive(&mut self) -> (a: Arrival)
        requires
            old(self).wf(),
            old(self).state().waiting < usize::MAX,
        ensures
            final(self).wf(),
            final(self).size() == old(self).size(),
            old(self).state().exiting ==> a == Arrival::Blocked && final(self).state() == old(self).state(),
            !old(self).state().exiting ==> final(self).state().waiting == old(self).state().waiting
                + 1 && final(self).state().exiting == (old(self).state().waiting + 1 == old(self).size()) && a == if final(self).state().exiting {
                Arrival::Opened
            } else {
                Arrival::Waiting
            },
    {
        if self.state.exiting {
            return Arrival::Blocked;
        }
        self.state.waiting += 1;
        if self.state.waiting == self.size {
            self.state.exiting = true;
            Arrival::Opened
        } else {
            Arrival::Waiting
        }
    }

    /// A thread leaves an open barrier. The last one closes it: it is to
    /// wake every sleeper, and the result is `true`.
    pub fn leave(&mut self) -> (closed: bool)
        requires
            old(self).wf(),
            old(self).state().exiting,
        ensures
            final(self).wf(),
            final(self).size() == old(self).size(),
            final(self).state().waiting == old(self).state().waiting - 1,
            closed == (old(self).state().waiting == 1),
            final(self).state().exiting == !closed,
    {
        self.state.waiting -= 1;
        if self.state.waiting == 0 {
            self.state.exiting = false;
            true
        } else {
            false
        }
    }
}

} // verus!
