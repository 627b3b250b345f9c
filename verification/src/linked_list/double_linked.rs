use std::collections::VecDeque;
use vstd::prelude::*;

verus! {

/// A cell of a list with two ends.
pub struct Node<T> {
    elem: T,
}

/// The items of a row of cells.
pub open spec fn elems_of<T>(nodes: Seq<Node<T>>) -> Seq<T> {
    nodes.map_values(|n: Node<T>| n.spec_elem())
}

impl<T> Node<T> {
    /// The cell's item.
    pub closed spec fn spec_elem(self) -> T {
        self.elem
    }
}

/// A list with two ends: items enter and leave at the head and at the
/// tail, or leave from any place counted from the head.
pub struct List<T> {
    nodes: VecDeque<Node<T>>,
}

impl<T> View for List<T> {
    type V = Seq<T>;

    /// The items from the head to the tail.
    closed spec fn view(&self) -> Seq<T> {
        elems_of(self.nodes@)
    }
}

impl<T> List<T> {
    pub fn new() -> (l: Self)
        ensures
            l@ == Seq::<T>::empty(),
    {
        let l = List { nodes: VecDeque::new() };
        assert(l@ =~= Seq::<T>::empty());
        l
    }

    /// Puts an item before the head.
    pub fn push_head(&mut self, elem: T)
        ensures
            final(self)@ == seq![elem] + old(self)@,
    {
        self.nodes.push_front(Node { elem });
        assert(self@ =~= seq![elem] + old(self)@);
    }

    /// Puts an item behind the tail.
    pub fn push_tail(&mut self, elem: T)
        ensures
            final(self)@ == old(self)@.push(elem),
    {
        self.nodes.push_back(Node { elem });
        assert(self@ =~= old(self)@.push(elem));
    }

    /// Takes the item at the head off.
    pub fn pop_head(&mut self) -> (r: Option<T>)
        ensures
            old(self)@.len() == 0 ==> r is None && final(self)@ == old(self)@,
            old(self)@.len() > 0 ==> r == Some(old(self)@[0]) && final(self)@ == old(self)@.drop_first(),
    {
        match self.nodes.pop_front() {
            Some(node) => {
                assert(self@ =~= old(self)@.drop_first());
                Some(node.elem)
            },
            None => None,
        }
    }

    /// Takes the item at the tail off.
    pub fn pop_tail(&mut self) -> (r: Option<T>)
        ensures
            old(self)@.len() == 0 ==> r is None && final(self)@ == old(self)@,
            old(self)@.len() > 0 ==> r == Some(old(self)@.last()) && final(self)@ == old(self)@.drop_last(),
    {
        match self.nodes.pop_back() {
            Some(node) => {
                assert(self@ =~= old(self)@.drop_last());
                Some(node.elem)
            },
            None => None,
        }
    }

    /// Takes out the item that stands `n` places behind the head, if
    /// there is one.
    pub fn pop_n(&mut self, n: usize) -> (r: Option<T>)
        ensures
            n >= old(self)@.len() ==> r is None && final(self)@ == old(self)@,
            n < old(self)@.len() ==> r == Some(old(self)@[n as int]) && final(self)@ == old(self)@.remove(
                n as int,
            ),
    {
        if n >= self.nodes.len() {
            return None;
        }
        match self.nodes.remove(n) {
            Some(node) => {
                assert(self@ =~= old(self)@.remove(n as int));
                Some(node.elem)
            },
            None => None,
        }
    }

    /// The item at the head.
    pub fn peek_head(&self) -> (r: Option<&T>)
        ensures
            self@.len() == 0 ==> r is None,
            self@.len() > 0 ==> r == Some(&self@[0]),
    {
        if self.nodes.len() == 0 {
            None
        } else {
            Some(&self.nodes[0].elem)
        }
    }

    /// The item at the tail.
    pub fn peek_tail(&self) -> (r: Option<&T>)
        ensures
            self@.len() == 0 ==> r is None,
            self@.len() > 0 ==> r == Some(&self@.last()),
    {
        let n: usize = self.nodes.len();
        if n == 0 {
            None
        } else {
            Some(&self.nodes[n - 1].elem)
        }
    }

    /// A walk over the items from the head to the tail.
    pub fn iter_head(&self) -> (it: ListIter2<'_, T>)
        ensures
            it.wf(),
            it@ == self@,
    {
        let it = ListIter2 { list: self, left: self.nodes.len(), from_tail: false };
        assert(it@ =~= self@);
        it
    }

    /// A walk over the items from the tail to the head.
    pub fn iter_tail(&self) -> (it: ListIter2<'_, T>)
        ensures
            it.wf(),
            it@ == self@.reverse(),
    {
        let it = ListIter2 { list: self, left: self.nodes.len(), from_tail: true };
        assert(it@ =~= self@.reverse());
        it
    }

    /// Moves the first `n` items, or all if there are fewer, to a new list,
    /// one after the other to its head: they stand there in reverse order.
    pub fn take(&mut self, n: usize) -> (l: List<T>)
        ensures
            l@ == old(self)@.take(vstd::math::min(n as int, old(self)@.len() as int)).reverse(),
            final(self)@ == old(self)@.skip(vstd::math::min(n as int, old(self)@.len() as int)),
    {
        let mut list: List<T> = List::new();
        let mut i: usize = 0;
        let ghost all = self@;
        assert(all.take(0).reverse() =~= Seq::<T>::empty());
        assert(all.skip(0) =~= all);
        while i < n
            invariant
                i <= n,
                i <= all.len(),
                all == old(self)@,
                list@ == all.take(i as int).reverse(),
                self@ == all.skip(i as int),
            ensures
                i == vstd::math::min(n as int, all.len() as int),
                list@ == all.take(i as int).reverse(),
                self@ == all.skip(i as int),
            decreases n - i,
        {
            match self.pop_head() {
                Some(item) => {
                    list.push_head(item);
                    i += 1;
                    assert(list@ =~= all.take(i as int).reverse());
                    assert(self@ =~= all.skip(i as int));
                },
                None => {
                    break;
                },
            }
        }
        list
    }
}

/// A walk over the items of a list from one of its ends.
pub struct ListIter2<'a, T> {
    list: &'a List<T>,
    left: usize,
    from_tail: bool,
}

impl<'a, T> View for ListIter2<'a, T> {
    type V = Seq<T>;

    /// The items still to come, the next one first.
    closed spec fn view(&self) -> Seq<T> {
        if self.from_tail {
            self.list@.take(self.left as int).reverse()
        } else {
            self.list@.skip(self.list@.len() - self.left)
        }
    }
}

impl<'a, T> ListIter2<'a, T> {
    pub closed spec fn wf(&self) -> bool {
        self.left <= self.list.nodes@.len()
    }

    /// The next item, if one is left.
    pub fn next(&mut self) -> (r: Option<&'a T>)
        requires
            old(self).wf(),
        ensures
            final(self).wf(),
            old(self)@.len() == 0 ==> r is None && final(self)@ == old(self)@,
            old(self)@.len() > 0 ==> r == Some(&old(self)@[0]) && final(self)@ == old(self)@.drop_first(),
    {
        if self.left == 0 {
            return None;
        }
        let at: usize = if self.from_tail {
            self.left - 1
        } else {
            self.list.nodes.len() - self.left
        };
        let node = &self.list.nodes[at];
        self.left -= 1;
        assert(self@ =~= old(self)@.drop_first());
        Some(&node.elem)
    }
}

} // verus!
