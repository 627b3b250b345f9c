use vstd::prelude::*;

verus! {

/// A write found no free slot.
#[derive(Debug, PartialEq, Eq, Clone, Copy, Structural)]
pub enum Error {
    FullBuffer,
}

/// A queue of bounded length in a ring of slots: items enter behind the
/// newest and leave from the oldest.
pub struct CircularBuffer<T> {
    data: Vec<Option<T>>,
    head: usize,
    size: usize,
    cap: usize,
}

impl<T> CircularBuffer<T> {
    /// The slots of the ring, empty ones included.
    pub closed spec fn slots(&self) -> Seq<Option<T>> {
        self.data@
    }

    /// The slot of the oldest item.
    pub closed spec fn head(&self) -> nat {
        self.head as nat
    }

    /// How many items the buffer holds.
    pub closed spec fn len(&self) -> nat {
        self.size as nat
    }

    /// How many slots were asked for when the ring was last laid out.
    pub closed spec fn asked(&self) -> nat {
        self.cap as nat
    }

    /// The ring's invariant: the oldest item's slot exists, and no more
    /// items are held than there are slots.
    pub open spec fn wf(&self) -> bool {
        &&& self.slots().len() == 0 ==> self.head() == 0
        &&& self.slots().len() > 0 ==> self.head() < self.slots().len()
        &&& self.len() <= self.slots().len()
    }

    /// The slot that lies `i` places behind the oldest item's, going round
    /// the ring once at most.
    pub open spec fn slot_at(&self, i: int) -> int {
        if self.head() + i < self.slots().len() {
            self.head() + i
        } else {
            self.head() + i - self.slots().len()
        }
    }

    fn slot(&self, i: usize) -> (k: usize)
        requires
            self.wf(),
            i <= self.slots().len(),
            self.slots().len() > 0,
        ensures
            k == self.slot_at(i as int),
            k < self.slots().len(),
    {
        let room: usize = self.data.len() - self.head;
        if i < room {
            self.head + i
        } else {
            i - room
        }
    }

    /// The items from the oldest to the newest.
    pub open spec fn items(&self) -> Seq<Option<T>> {
        Seq::new(self.len(), |i: int| self.slots()[self.slot_at(i)])
    }

    /// A ring of `capacity` empty slots.
    pub fn new(capacity: usize) -> (b: Self)
        ensures
            b.wf(),
            b.slots() == Seq::new(capacity as nat, |i: int| None::<T>),
            b.head() == 0,
            b.len() == 0,
            b.asked() == capacity,
    {
        CircularBuffer { data: empty_slots(capacity), head: 0, size: 0, cap: capacity }
    }

    /// Puts an item behind the newest, unless as many items are held as
    /// there are slots.
    pub fn write(&mut self, item: T) -> (r: Result<(), Error>)
        requires
            old(self).wf(),
        ensures
            final(self).wf(),
            final(self).head() == old(self).head(),
            final(self).asked() == old(self).asked(),
            old(self).len() == old(self).slots().len() ==> r == Err::<(), Error>(Error::FullBuffer)
                && final(self).slots() == old(self).slots() && final(self).len() == old(self).len(),
            old(self).len() != old(self).slots().len() ==> r == Ok::<(), Error>(())
                && final(self).slots() == old(self).slots().update(
                old(self).slot_at(old(self).len() as int),
                Some(item),
            ) && final(self).len() == old(self).len() + 1,
    {
        if self.size == self.data.len() {
            return Err(Error::FullBuffer);
        }
        let index: usize = self.slot(self.size);
        self.data[index] = Some(item);
        self.size += 1;
        Ok(())
    }

    /// Takes the oldest item out of its slot; `None` from an empty buffer.
    pub fn read(&mut self) -> (item: Option<T>)
        requires
            old(self).wf(),
        ensures
            final(self).wf(),
            final(self).asked() == old(self).asked(),
            old(self).len() == 0 ==> item is None && final(self).slots() == old(self).slots()
                && final(self).head() == old(self).head() && final(self).len() == 0,
            old(self).len() > 0 ==> item == old(self).slots()[old(self).head() as int]
                && final(self).slots() == old(self).slots().update(old(self).head() as int, None)
                && final(self).head() == old(self).slot_at(1) && final(self).len() == old(self).len() - 1,
    {
        if self.size == 0 {
            return None;
        }
        let next: usize = self.slot(1);
        let item = self.data[self.head].take();
        self.head = next;
        self.size -= 1;
        item
    }

    /// Empties every slot. The oldest item's slot stays where it was.
    pub fn clear(&mut self)
        requires
            old(self).wf(),
        ensures
            final(self).wf(),
            final(self).slots() == Seq::new(old(self).slots().len(), |i: int| None::<T>),
            final(self).head() == old(self).head(),
            final(self).len() == 0,
            final(self).asked() == old(self).slots().len(),
    {
        let capacity: usize = self.data.len();
        self.data = empty_slots(capacity);
        self.cap = capacity;
        self.size = 0;
    }

    pub fn size(&self) -> (n: usize)
        ensures
            n == self.len(),
    {
        self.size
    }

    /// Puts an item behind the newest; in a buffer that holds as many items
    /// as slots were asked for, the item takes the place of the oldest.
    pub fn overwrite(&mut self, item: T)
        requires
            old(self).wf(),
            old(self).slots().len() > 0,
            old(self).len() < old(self).slots().len() || old(self).len() == old(self).asked(),
        ensures
            final(self).wf(),
            final(self).asked() == old(self).asked(),
            old(self).len() == old(self).asked() ==> final(self).slots() == old(self).slots().update(
                old(self).head() as int,
                Some(item),
            ) && final(self).head() == old(self).slot_at(1) && final(self).len() == old(self).len(),
            old(self).len() != old(self).asked() ==> final(self).slots() == old(self).slots().update(
                old(self).slot_at(old(self).len() as int),
                Some(item),
            ) && final(self).head() == old(self).head() && final(self).len() == old(self).len()
                + 1,
    {
        if self.size == self.cap {
            let next: usize = self.slot(1);
            self.data[self.head] = Some(item);
            self.head = next;
        } else {
            let index: usize = self.slot(self.size);
            assert(self.size < self.data.len());
            self.data[index] = Some(item);
            self.size += 1;
        }
    }
}

/// `n` empty slots.
fn empty_slots<T>(n: usize) -> (v: Vec<Option<T>>)
    ensures
        v@ == Seq::new(n as nat, |i: int| None::<T>),
{
    let mut v: Vec<Option<T>> = Vec::new();
    let mut i: usize = 0;
    while i < n
        invariant
            i <= n,
            v@ == Seq::new(i as nat, |k: int| None::<T>),
        decreases n - i,
    {
        v.push(None);
        i += 1;
        assert(v@ =~= Seq::new(i as nat, |k: int| None::<T>));
    }
    v
}

impl<T> CircularBuffer<T> {
    /// Whether slot `p` holds one of the `k` oldest items.
    pub open spec fn among_oldest(&self, p: int, k: int) -> bool {
        if p >= self.head() {
            p - self.head() < k
        } else {
            p + self.slots().len() - self.head() < k
        }
    }

    /// Lays the ring out anew with the items alone, the oldest in the
    /// first slot: afterwards there are as many slots as items.
    pub fn make_contiguous(&mut self)
        requires
            old(self).wf(),
        ensures
            final(self).wf(),
            final(self).slots() == old(self).items(),
            final(self).head() == 0,
            final(self).len() == old(self).len(),
            final(self).asked() == old(self).slots().len(),
    {
        let ghost start = self.data@;
        let slots: usize = self.data.len();
        let mut contiguous: Vec<Option<T>> = Vec::new();
        let mut k: usize = 0;
        while k < self.size
            invariant
                k <= self.size,
                self.size == old(self).size,
                self.head == old(self).head,
                self.data@.len() == start.len(),
                slots == start.len(),
                start == old(self).slots(),
                old(self).wf(),
                contiguous@.len() == k,
                forall|j: int| 0 <= j < k ==> contiguous@[j] == start[old(self).slot_at(j)],
                forall|p: int|
                    0 <= p < slots ==> self.data@[p] == if old(self).among_oldest(p, k as int) {
                        None
                    } else {
                        start[p]
                    },
            decreases self.size - k,
        {
            let room: usize = slots - self.head;
            let index: usize = if k < room {
                self.head + k
            } else {
                k - room
            };
            assert(index == old(self).slot_at(k as int));
            assert(!old(self).among_oldest(index as int, k as int));
            let item = self.data[index].take();
            contiguous.push(item);
            k += 1;
        }
        assert(contiguous@ =~= old(self).items());
        self.cap = slots;
        self.data = contiguous;
        self.head = 0;
    }

    /// Whether the items lie in their slots in one run, without going
    /// round the end of the ring.
    pub open spec fn contiguous(&self) -> bool {
        self.head() + self.len() <= self.slots().len()
    }
}

impl<T> vstd::std_specs::core::IndexSpecImpl<usize> for CircularBuffer<T> {
    open spec fn index_req(&self, index: &usize) -> bool {
        self.head() + *index < self.slots().len()
    }
}

impl<T> std::ops::Index<usize> for CircularBuffer<T> {
    type Output = Option<T>;

    /// The slot that lies `index` places behind the oldest item's, not
    /// going round the end of the ring.
    fn index(&self, index: usize) -> (r: &Option<T>)
        ensures
            *r == self.slots()[self.head() + index],
    {
        assert(self.head + index < self.data.len());
        &self.data[self.head + index]
    }
}

impl<T> std::ops::Deref for CircularBuffer<T> {
    type Target = [Option<T>];

    /// The items from the oldest to the newest where they lie in one run;
    /// nothing where they go round the end of the ring.
    fn deref(&self) -> (r: &[Option<T>])
        ensures
            self.wf() && self.contiguous() ==> r@ == self.items(),
            self.wf() && !self.contiguous() ==> r@.len() == 0,
    {
        if self.head <= self.data.len() && self.size <= self.data.len() - self.head {
            let r = &self.data[self.head..(self.head + self.size)];
            assert(self.wf() ==> r@ =~= self.items());
            r
        } else {
            &self.data[0..0]
        }
    }
}

/// In a buffer with a free slot, a write puts the item behind the newest.
pub proof fn law_write_appends<T>(pre: CircularBuffer<T>, post: CircularBuffer<T>, item: T)
    requires
        pre.wf(),
        pre.len() < pre.slots().len(),
        post.head() == pre.head(),
        post.len() == pre.len() + 1,
        post.slots() == pre.slots().update(pre.slot_at(pre.len() as int), Some(item)),
    ensures
        post.items() == pre.items().push(Some(item)),
{
    assert(post.items() =~= pre.items().push(Some(item)));
}

/// A read takes the oldest item and leaves the others in their order.
pub proof fn law_read_takes_oldest<T>(pre: CircularBuffer<T>, post: CircularBuffer<T>)
    requires
        pre.wf(),
        pre.len() > 0,
        post.head() == pre.slot_at(1),
        post.len() == pre.len() - 1,
        post.slots() == pre.slots().update(pre.head() as int, None),
    ensures
        pre.slots()[pre.head() as int] == pre.items()[0],
        post.items() == pre.items().drop_first(),
{
    assert(post.items() =~= pre.items().drop_first());
}

/// In a buffer whose every slot is taken, overwriting drops the oldest
/// item and puts the new one behind the newest.
pub proof fn law_overwrite_drops_oldest<T>(pre: CircularBuffer<T>, post: CircularBuffer<T>, item: T)
    requires
        pre.wf(),
        pre.len() == pre.slots().len(),
        pre.len() > 0,
        post.head() == pre.slot_at(1),
        post.len() == pre.len(),
        post.slots() == pre.slots().update(pre.head() as int, Some(item)),
    ensures
        post.items() == pre.items().drop_first().push(Some(item)),
{
    assert(post.items() =~= pre.items().drop_first().push(Some(item)));
}

impl<T> std::ops::IndexMut<usize> for CircularBuffer<T> {
    /// The slot that lies `index` places behind the oldest item's, not
    /// going round the end of the ring, to change it.
    fn index_mut(&mut self, index: usize) -> (r: &mut Option<T>)
        requires
            old(self).head() + index < old(self).slots().len(),
        ensures
            *r == old(self).slots()[old(self).head() + index],
            final(self).slots() == old(self).slots().update(old(self).head() + index, *final(r)),
            final(self).head() == old(self).head(),
            final(self).len() == old(self).len(),
            final(self).asked() == old(self).asked(),
    {
        assert(self.head + index < self.data.len());
        &mut self.data[self.head + index]
    }
}


impl<T> std::ops::DerefMut for CircularBuffer<T> {
    /// The items from the oldest to the newest as one slice, to change
    /// them. Where they go round the end of the ring, the ring is first
    /// laid out anew with `make_contiguous`.
    fn deref_mut(&mut self) -> (r: &mut [Option<T>])
        ensures
            old(self).wf() ==> r@ == old(self).items(),
            old(self).wf() ==> final(self).len() == old(self).len(),
            old(self).wf() && old(self).contiguous() ==> final(self).head() == old(self).head() && final(self).asked()
                == old(self).asked() && final(self).slots() == old(self).slots().take(
                old(self).head() as int,
            ) + final(r)@ + old(self).slots().skip((old(self).head() + old(self).len()) as int),
            old(self).wf() && !old(self).contiguous() ==> final(self).head() == 0 && final(self).asked() == old(self).slots().len() && final(self).slots() == final(r)@,
    {
        let slots: usize = self.data.len();
        if self.size > slots || self.head > slots || (self.head == slots && slots > 0) {
            let (none, _) = self.data.as_mut_slice().split_at_mut(0);
            return none;
        }
        if self.size > slots - self.head {
            self.make_contiguous();
        }
        let head: usize = self.head;
        let size: usize = self.size;
        let ghost slots = self.data@;
        let whole = self.data.as_mut_slice();
        let (front, rest) = whole.split_at_mut(head);
        let (live, back) = rest.split_at_mut(size);
        proof {
            assert(live@ =~= old(self).items());
            assert(front@ =~= slots.take(head as int));
            assert(back@ =~= slots.skip(head + size));
        }
        live
    }
}

} // verus!
