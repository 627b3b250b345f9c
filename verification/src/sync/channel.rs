use std::collections::VecDeque;
use vstd::prelude::*;

verus! {

#[derive(Debug, Clone, Copy, PartialEq, Eq, Structural)]
pub enum ChannelState {
    Open,
    Closed,
}

/// What a sender does next.
pub enum SendStep<E> {
    /// The channel is closed: the item is handed back and not sent.
    Refused(E),
    /// The buffer is full: sleep until the channel is closed, then put the
    /// item in with `force`.
    MustWait(E),
    /// The item is in the buffer: wake the receivers.
    Sent,
}

/// What a receiver does next.
pub enum RecvStep<E> {
    /// The oldest item: wake the senders.
    Got(E),
    /// The channel is closed and empty.
    Finished,
    /// The buffer is empty: sleep until the channel is closed, then look
    /// with `take`.
    MustWait,
}

/// The buffer of a channel with many senders and many receivers. It puts
/// nobody to sleep itself: whoever holds its lock asks it what to do.
pub struct MpMcChannel<E> {
    state: ChannelState,
    buffer: VecDeque<E>,
    capacity: usize,
}

impl<E> MpMcChannel<E> {
    /// The items in the buffer, the oldest first.
    pub closed spec fn items(&self) -> Seq<E> {
        self.buffer@.reverse()
    }

    pub closed spec fn state(&self) -> ChannelState {
        self.state
    }

    /// How many items the buffer takes before senders must wait.
    pub closed spec fn capacity(&self) -> nat {
        self.capacity as nat
    }

    /// An open channel with an empty buffer for `n` items.
    pub fn new(n: usize) -> (c: Self)
        ensures
            c.items() == Seq::<E>::empty(),
            c.state() == ChannelState::Open,
            c.capacity() == n,
    {
        let c = MpMcChannel { state: ChannelState::Open, buffer: VecDeque::new(), capacity: n };
        assert(c.items() =~= Seq::<E>::empty());
        c
    }

    /// Whether the channel is closed.
    pub fn is_closed(&self) -> (b: bool)
        ensures
            b == (self.state() == ChannelState::Closed),
    {
        self.state == ChannelState::Closed
    }

    /// A sender comes with an item.
    pub fn send(&mut self, e: E) -> (s: SendStep<E>)
        ensures
            final(self).state() == old(self).state(),
            final(self).capacity() == old(self).capacity(),
            s == if old(self).state() == ChannelState::Closed {
                SendStep::Refused(e)
            } else if old(self).items().len() == old(self).capacity() {
                SendStep::MustWait(e)
            } else {
                SendStep::Sent
            },
            final(self).items() == if s is Sent {
                old(self).items().push(e)
            } else {
                old(self).items()
            },
    {
        if self.state == ChannelState::Closed {
            return SendStep::Refused(e);
        }
        if self.buffer.len() == self.capacity {
            return SendStep::MustWait(e);
        }
        self.buffer.push_front(e);
        assert(self.items() =~= old(self).items().push(e));
        SendStep::Sent
    }

    /// Puts an item in, whatever the channel's state and however full the
    /// buffer: what a sender does when it wakes.
    pub fn force(&mut self, e: E)
        ensures
            final(self).state() == old(self).state(),
            final(self).capacity() == old(self).capacity(),
            final(self).items() == old(self).items().push(e),
    {
        self.buffer.push_front(e);
        assert(self.items() =~= old(self).items().push(e));
    }

    /// A receiver comes.
    pub fn recv(&mut self) -> (r: RecvStep<E>)
        ensures
            final(self).state() == old(self).state(),
            final(self).capacity() == old(self).capacity(),
            old(self).items().len() > 0 ==> r == RecvStep::Got(old(self).items()[0]) && final(self).items() == old(self).items().drop_first(),
            old(self).items().len() == 0 ==> final(self).items() == old(self).items() && r == if old(self).state() == ChannelState::Closed {
                RecvStep::<E>::Finished
            } else {
                RecvStep::<E>::MustWait
            },
    {
        match self.buffer.pop_back() {
            Some(e) => {
                assert(self.items() =~= old(self).items().drop_first());
                RecvStep::Got(e)
            },
            None => {
                if self.state == ChannelState::Closed {
                    RecvStep::Finished
                } else {
                    RecvStep::MustWait
                }
            },
        }
    }

    /// Takes the oldest item, if there is one: what a receiver does when it
    /// wakes.
    pub fn take(&mut self) -> (r: Option<E>)
        ensures
            final(self).state() == old(self).state(),
            final(self).capacity() == old(self).capacity(),
            old(self).items().len() > 0 ==> r == Some(old(self).items()[0]) && final(self).items()
                == old(self).items().drop_first(),
            old(self).items().len() == 0 ==> r is None && final(self).items() == old(self).items(),
    {
        let r = self.buffer.pop_back();
        proof {
            if r is Some {
                assert(self.items() =~= old(self).items().drop_first());
            }
        }
        r
    }

    /// Closes the channel. The items in the buffer stay for the receivers.
    pub fn shutdown(&mut self) -> (r: Option<()>)
        ensures
            r == Some(()),
            final(self).state() == ChannelState::Closed,
            final(self).capacity() == old(self).capacity(),
            final(self).items() == old(self).items(),
    {
        self.state = ChannelState::Closed;
        Some(())
    }
}

} // verus!
