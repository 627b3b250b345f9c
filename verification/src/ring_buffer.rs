use vstd::prelude::*;

verus! {

/// Why a buffer could not be read or written.
#[derive(Debug, PartialEq)]
pub enum Error<T> {
    /// Nothing to read.
    EmptyBuffer,
    /// No room for the item, which is handed back.
    FullBuffer(T),
}

/// A queue of bounded length in a ring of slots. A slot without an item
/// holds a placeholder.
pub struct CircularBuffer<T> {
    data: Vec<T>,
    tail: usize,
    head: usize,
    len: usize,
}

/// The slot after slot `i` in a ring of `n` slots.
pub open spec fn after(i: int, n: int) -> int {
    if i + 1 >= n {
        0
    } else {
        i + 1
    }
}

/// The slot `k` places after slot `i` in a ring of `n` slots, going round
/// once at most.
pub open spec fn ahead(i: int, k: int, n: int) -> int {
    if i + k < n {
        i + k
    } else {
        i + k - n
    }
}

impl<T> CircularBuffer<T> {
    /// The items from the oldest to the newest.
    pub closed spec fn items(&self) -> Seq<T> {
        Seq::new(self.len as nat, |i: int| self.data@[ahead(self.head as int, i, self.data@.len() as int)])
    }

    /// How many items the buffer has room for.
    pub closed spec fn capacity(&self) -> nat {
        self.data@.len()
    }

    /// The slot of the oldest item.
    pub closed spec fn head(&self) -> int {
        self.head as int
    }

    /// The slot that the next item goes to.
    pub closed spec fn tail(&self) -> int {
        self.tail as int
    }

    /// The ring's invariant: the items lie from the head's slot up to the
    /// tail's, round the ring.
    pub closed spec fn wf(&self) -> bool {
        &&& self.len <= self.data@.len()
        &&& self.data@.len() == 0 ==> self.head == 0 && self.tail == 0
        &&& self.data@.len() > 0 ==> self.head < self.data@.len() && self.tail == ahead(
            self.head as int,
            self.len as int,
            self.data@.len() as int,
        ) % (self.data@.len() as int)
    }

    /// What the invariant says of the places of head and tail.
    pub proof fn lemma_shape(&self)
        requires
            self.wf(),
        ensures
            self.items().len() <= self.capacity(),
            self.capacity() == 0 ==> self.head() == 0 && self.tail() == 0,
            self.capacity() > 0 ==> 0 <= self.head() < self.capacity() && 0 <= self.tail()
                < self.capacity(),
            self.head() < self.tail() ==> self.items().len() == self.tail() - self.head(),
            self.head() > self.tail() ==> self.items().len() == self.capacity() - self.head()
                + self.tail(),
            self.head() == self.tail() ==> self.items().len() == 0 || self.items().len()
                == self.capacity(),
    {
        let n = self.data@.len() as int;
        if n > 0 {
            let t = ahead(self.head as int, self.len as int, n);
            if t == n {
                assert(t % n == 0) by (nonlinear_arith)
                    requires
                        t == n,
                        n > 0,
                ;
            } else {
                assert(t % n == t) by (nonlinear_arith)
                    requires
                        0 <= t < n,
                ;
            }
        }
    }
}

impl<T: Default> CircularBuffer<T> {
    /// An empty buffer with room for `capacity` items.
    pub fn new(capacity: usize) -> (b: Self)
        ensures
            b.wf(),
            b.items() == Seq::<T>::empty(),
            b.capacity() == capacity,
            b.head() == 0,
            b.tail() == 0,
    {
        let mut buf: Vec<T> = Vec::new();
        let mut i: usize = 0;
        while i < capacity
            invariant
                i <= capacity,
                buf@.len() == i,
            decreases capacity - i,
        {
            buf.push(T::default());
            i += 1;
        }
        let b = CircularBuffer { data: buf, tail: 0, head: 0, len: 0 };
        assert(b.items() =~= Seq::<T>::empty());
        assert(capacity > 0 ==> 0int % (capacity as int) == 0) by (nonlinear_arith);
        b
    }

    /// Puts an item behind the newest; a full buffer hands it back.
    pub fn write(&mut self, element: T) -> (r: Result<(), Error<T>>)
        requires
            old(self).wf(),
        ensures
            final(self).wf(),
            final(self).capacity() == old(self).capacity(),
            final(self).head() == old(self).head(),
            old(self).items().len() == old(self).capacity() ==> r == Err::<(), Error<T>>(
                Error::FullBuffer(element),
            ) && final(self).items() == old(self).items() && final(self).tail() == old(self).tail(),
            old(self).items().len() < old(self).capacity() ==> r == Ok::<(), Error<T>>(())
                && final(self).items() == old(self).items().push(element) && final(self).tail()
                == after(old(self).tail(), old(self).capacity() as int),
    {
        proof {
            self.lemma_shape();
        }
        if self.len == self.data.len() {
            return Err(Error::FullBuffer(element));
        }
        let slots: usize = self.data.len();
        let ghost before = self.data@;
        self.data[self.tail] = element;
        self.tail = if self.tail + 1 == slots {
            0
        } else {
            self.tail + 1
        };
        self.len += 1;
        proof {
            let n = slots as int;
            let t = ahead(self.head as int, self.len as int, n);
            if t == n {
                assert(t % n == 0) by (nonlinear_arith)
                    requires
                        t == n,
                        n > 0,
                ;
            } else {
                assert(t % n == t) by (nonlinear_arith)
                    requires
                        0 <= t < n,
                ;
            }
            assert(self.items() =~= old(self).items().push(element));
        }
        Ok(())
    }

    /// Takes the oldest item; an empty buffer has none.
    pub fn read(&mut self) -> (r: Result<T, Error<T>>)
        requires
            old(self).wf(),
        ensures
            final(self).wf(),
            final(self).capacity() == old(self).capacity(),
            final(self).tail() == old(self).tail(),
            old(self).items().len() == 0 ==> r == Err::<T, Error<T>>(Error::EmptyBuffer)
                && final(self).items() == old(self).items() && final(self).head() == old(self).head(),
            old(self).items().len() > 0 ==> r == Ok::<T, Error<T>>(old(self).items()[0])
                && final(self).items() == old(self).items().drop_first() && final(self).head()
                == after(old(self).head(), old(self).capacity() as int),
    {
        proof {
            self.lemma_shape();
        }
        if self.len == 0 {
            return Err(Error::EmptyBuffer);
        }
        let slots: usize = self.data.len();
        let mut element: T = T::default();
        core::mem::swap(&mut self.data[self.head], &mut element);
        self.head = if self.head + 1 == slots {
            0
        } else {
            self.head + 1
        };
        self.len -= 1;
        proof {
            let n = slots as int;
            let t = ahead(self.head as int, self.len as int, n);
            if t == n {
                assert(t % n == 0) by (nonlinear_arith)
                    requires
                        t == n,
                        n > 0,
                ;
            } else {
                assert(t % n == t) by (nonlinear_arith)
                    requires
                        0 <= t < n,
                ;
            }
            assert(self.items() =~= old(self).items().drop_first());
        }
        Ok(element)
    }
}

/// A sequence with its first `k` items moved to the end.
pub open spec fn rotated<T>(s: Seq<T>, k: int) -> Seq<T> {
    s.skip(k) + s.take(k)
}

proof fn lemma_mod_step(j: int, n: int)
    requires
        0 <= j,
        0 < n,
    ensures
        (j + 1) % n == after(j % n, n),
{
    assert((j + 1) % n == after(j % n, n)) by (nonlinear_arith)
        requires
            0 <= j,
            0 < n,
            after(j % n, n) == (if j % n + 1 >= n {
                0
            } else {
                j % n + 1
            }),
    ;
}

impl<T: Default> CircularBuffer<T> {
    /// Takes every item out.
    pub fn clear(&mut self)
        requires
            old(self).wf(),
        ensures
            final(self).wf(),
            final(self).items() == Seq::<T>::empty(),
            final(self).capacity() == old(self).capacity(),
            final(self).tail() == old(self).tail(),
    {
        while self.len > 0
            invariant
                self.wf(),
                self.capacity() == old(self).capacity(),
                self.tail() == old(self).tail(),
                self.len == self.items().len(),
            decreases self.items().len(),
        {
            let _ = self.read();
            assert(self.len == self.items().len());
        }
        assert(self.items() =~= Seq::<T>::empty());
    }

    /// Puts an item behind the newest; a full buffer first gives up its
    /// oldest item. A buffer without room stays empty.
    pub fn overwrite(&mut self, element: T)
        requires
            old(self).wf(),
        ensures
            final(self).wf(),
            final(self).capacity() == old(self).capacity(),
            final(self).items() == if old(self).capacity() == 0 {
                old(self).items()
            } else if old(self).items().len() == old(self).capacity() {
                old(self).items().drop_first().push(element)
            } else {
                old(self).items().push(element)
            },
    {
        proof {
            self.lemma_shape();
        }
        if self.len == self.data.len() {
            let _ = self.read();
        }
        let _ = self.write(element);
    }

    /// Brings the oldest item to the first slot by reading and writing
    /// back one item after the other until the head is there. This moves
    /// one item from the front of the queue to its back for every slot
    /// between the head and the end of the ring.
    pub fn make_contiguous(&mut self)
        requires
            old(self).wf(),
        ensures
            final(self).wf(),
            final(self).capacity() == old(self).capacity(),
            final(self).head() == 0,
            old(self).items().len() == 0 || old(self).head() == 0 ==> final(self).items() == old(
                self,
            ).items(),
            old(self).items().len() > 0 && old(self).head() != 0 ==> final(self).items() == rotated(
                old(self).items(),
                (old(self).capacity() - old(self).head()) % (old(self).items().len() as int),
            ),
    {
        proof {
            self.lemma_shape();
        }
        if self.len == 0 {
            self.head = 0;
            self.tail = 0;
            assert(self.items() =~= old(self).items());
            assert(self.data@.len() > 0 ==> 0int % (self.data@.len() as int) == 0) by (nonlinear_arith);
        } else {
            let ghost mut moved: int = 0;
            let ghost first = self.head as int;
            let ghost all = self.items();
            assert(rotated(all, 0) =~= all);
            assert(0int % (all.len() as int) == 0) by (nonlinear_arith)
                requires
                    all.len() > 0,
            ;
            while self.head != 0
                invariant
                    self.wf(),
                    self.capacity() == old(self).capacity(),
                    all == old(self).items(),
                    all.len() > 0,
                    self.items().len() == all.len(),
                    first == old(self).head(),
                    0 <= moved,
                    self.head != 0 ==> self.head == first + moved,
                    self.head == 0 && first != 0 ==> moved == self.capacity() - first,
                    first == 0 ==> moved == 0,
                    self.head < self.capacity(),
                    self.items() == rotated(all, moved % (all.len() as int)),
                decreases (if self.head == 0 {
                    0
                } else {
                    self.capacity() - self.head
                }),
            {
                let ghost now = self.items();
                let ghost k = moved % (all.len() as int);
                proof {
                    lemma_mod_step(moved, all.len() as int);
                }
                match self.read() {
                    Ok(element) => {
                        let _ = self.write(element);
                        proof {
                            assert(self.items() =~= rotated(all, after(k, all.len() as int)));
                            moved = moved + 1;
                        }
                    },
                    Err(_) => {},
                }
            }
        }
    }

    /// The slot of the item that lies `index` places behind the oldest.
    pub fn real_index(&self, index: usize) -> (k: usize)
        requires
            self.wf(),
            index < self.items().len(),
        ensures
            k == ahead(self.head(), index as int, self.capacity() as int),
            k < self.capacity(),
    {
        let room: usize = self.data.len() - self.head;
        if index < room {
            self.head + index
        } else {
            index - room
        }
    }
}

impl<T> vstd::std_specs::core::IndexSpecImpl<usize> for CircularBuffer<T> {
    open spec fn index_req(&self, index: &usize) -> bool {
        self.wf() && *index < self.items().len()
    }
}

impl<T> std::ops::Index<usize> for CircularBuffer<T> {
    type Output = T;

    /// The item that lies `index` places behind the oldest.
    fn index(&self, index: usize) -> (r: &T)
        ensures
            *r == self.items()[index as int],
    {
        assert(self.wf() && index < self.len);
        let room: usize = self.data.len() - self.head;
        if index < room {
            &self.data[self.head + index]
        } else {
            &self.data[index - room]
        }
    }
}

/// A view of a buffer's items as one slice, where they lie in one run.
pub trait TryDeref {
    type Target: ?Sized;

    fn try_deref(&self) -> Result<&Self::Target, String>;
}

impl<T: Default> TryDeref for CircularBuffer<T> {
    type Target = [T];

    /// The slots from the head's to the tail's: the items, where the head
    /// lies before the tail; nothing, where both lie in the same slot; an
    /// error, where the head lies behind the tail.
    fn try_deref(&self) -> (r: Result<&[T], String>)
        ensures
            self.wf() && self.head() < self.tail() ==> r is Ok && r->Ok_0@ == self.items(),
            self.wf() && self.head() == self.tail() ==> r is Ok && r->Ok_0@.len() == 0,
            self.head() > self.tail() ==> r is Err && r->Err_0@ == "not contiguous"@,
    {
        if self.head > self.tail {
            return Err("not contiguous".to_owned());
        }
        if self.tail <= self.data.len() {
            proof {
                if self.wf() {
                    self.lemma_shape();
                }
            }
            let r = &self.data[self.head..self.tail];
            assert(self.wf() && self.head < self.tail ==> r@ =~= self.items());
            Ok(r)
        } else {
            Ok(&self.data[0..0])
        }
    }
}

impl<T> std::ops::IndexMut<usize> for CircularBuffer<T> {
    /// The item that lies `index` places behind the oldest, to change it.
    fn index_mut(&mut self, index: usize) -> (r: &mut T)
        requires
            old(self).wf(),
            index < old(self).items().len(),
        ensures
            *r == old(self).items()[index as int],
            final(self).wf(),
            final(self).items() == old(self).items().update(index as int, *final(r)),
            final(self).capacity() == old(self).capacity(),
            final(self).head() == old(self).head(),
            final(self).tail() == old(self).tail(),
    {
        assert(self.wf() && index < self.len);
        let room: usize = self.data.len() - self.head;
        let k: usize = if index < room {
            self.head + index
        } else {
            index - room
        };
        let ghost before = self.data@;
        let r = &mut self.data[k];
        proof {
            let after = after_borrow(self).data@;
            assert(after_borrow(self).items() =~= old(self).items().update(index as int, after[k as int])) by {
                assert forall|i: int| 0 <= i < self.len implies after_borrow(self).items()[i] == old(
                    self,
                ).items().update(index as int, after[k as int])[i] by {
                    let slot = ahead(self.head as int, i, before.len() as int);
                    if i != index {
                        assert(slot != k);
                        assert(after[slot] == before[slot]);
                    }
                }
            }
        }
        r
    }
}

} // verus!
