use vstd::prelude::*;

verus! {

/// An item with the moment from which it may be taken.
pub struct Item<T> {
    pub instant: u64,
    pub element: T,
}

/// What the next look at the queue gives.
pub enum Poll<T> {
    /// Nothing is in the queue.
    Empty,
    /// The item that is due first, and is due.
    Ready(T),
    /// Nothing is due yet: sleep for this long, or until the queue
    /// changes, and look again.
    WaitFor(u64),
}

/// A queue without bound whose items may be taken only from a moment
/// that each item brings along. Moments are counts of time units from
/// some start. The queue puts nobody to sleep itself.
pub struct DelayedQueue<T> {
    queue: Vec<Item<T>>,
}

/// Whether place `i` holds the first of the items that are due first.
pub open spec fn first_due<T>(items: Seq<Item<T>>, i: int) -> bool {
    &&& 0 <= i < items.len()
    &&& forall|j: int| 0 <= j < items.len() ==> items[i].instant <= (#[trigger] items[j]).instant
    &&& forall|j: int| 0 <= j < i ==> items[i].instant < (#[trigger] items[j]).instant
}

impl<T> View for DelayedQueue<T> {
    type V = Seq<Item<T>>;

    /// The items in the order in which they were offered.
    closed spec fn view(&self) -> Seq<Item<T>> {
        self.queue@
    }
}

impl<T> DelayedQueue<T> {
    pub fn new() -> (q: Self)
        ensures
            q@ == Seq::<Item<T>>::empty(),
    {
        DelayedQueue { queue: Vec::new() }
    }

    /// Puts in an item that may be taken from the moment `i` on.
    pub fn offer(&mut self, t: T, i: u64)
        ensures
            final(self)@ == old(self)@.push(Item { instant: i, element: t }),
    {
        self.queue.push(Item { instant: i, element: t });
    }

    /// How many items the queue holds, due or not.
    pub fn size(&self) -> (n: usize)
        ensures
            n == self@.len(),
    {
        self.queue.len()
    }

    fn earliest(&self) -> (i: usize)
        requires
            self@.len() > 0,
        ensures
            first_due(self@, i as int),
    {
        let mut best: usize = 0;
        let mut k: usize = 1;
        while k < self.queue.len()
            invariant
                best < k <= self.queue.len(),
                forall|j: int| 0 <= j < k ==> self.queue@[best as int].instant <= (
                #[trigger] self.queue@[j]).instant,
                forall|j: int| 0 <= j < best ==> self.queue@[best as int].instant < (
                #[trigger] self.queue@[j]).instant,
            decreases self.queue.len() - k,
        {
            if self.queue[k].instant < self.queue[best].instant {
                best = k;
            }
            k += 1;
        }
        best
    }

    /// Looks for the item that is due first at the moment `now`; of items
    /// due at the same moment, for the one that was offered first. If its
    /// moment lies before `now`, it is taken; else the queue stays as it
    /// is and the time to its moment is given.
    pub fn poll(&mut self, now: u64) -> (p: Poll<T>)
        ensures
            old(self)@.len() == 0 ==> p is Empty && final(self)@ == old(self)@,
            old(self)@.len() > 0 ==> exists|i: int|
                #[trigger] first_due(old(self)@, i) && if old(self)@[i].instant < now {
                    p == Poll::Ready(old(self)@[i].element) && final(self)@ == old(self)@.remove(i)
                } else {
                    p == Poll::<T>::WaitFor((old(self)@[i].instant - now) as u64) && final(self)@
                        == old(self)@
                },
    {
        if self.queue.len() == 0 {
            return Poll::Empty;
        }
        let i = self.earliest();
        if self.queue[i].instant < now {
            let item = self.queue.remove(i);
            Poll::Ready(item.element)
        } else {
            Poll::WaitFor(self.queue[i].instant - now)
        }
    }
}

/// The item that is due first is in one place only.
pub proof fn law_first_due_is_unique<T>(items: Seq<Item<T>>, i: int, j: int)
    requires
        first_due(items, i),
        first_due(items, j),
    ensures
        i == j,
{
    if i < j {
        assert(items[j].instant < items[i].instant);
        assert(items[i].instant <= items[j].instant);
    } else if j < i {
        assert(items[i].instant < items[j].instant);
        assert(items[j].instant <= items[i].instant);
    }
}

} // verus!
