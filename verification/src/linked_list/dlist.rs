use std::collections::VecDeque;
use vstd::prelude::*;

verus! {

/// A cell of a list with two ends; `v` is its item.
#[derive(Debug)]
pub struct DNode<T> {
    pub v: T,
}

/// The items of a row of cells.
pub open spec fn items_of<T>(nodes: Seq<DNode<T>>) -> Seq<T> {
    nodes.map_values(|n: DNode<T>| n.v)
}

/// A list with two ends: items enter at the front and leave at the back,
/// or from any place counted from the front.
pub struct DList<T> {
    nodes: VecDeque<DNode<T>>,
}

impl<T> View for DList<T> {
    type V = Seq<T>;

    /// The items from the front to the back.
    closed spec fn view(&self) -> Seq<T> {
        items_of(self.nodes@)
    }
}

impl<T> DList<T> {
    pub fn new() -> (l: Self)
        ensures
            l@ == Seq::<T>::empty(),
    {
        let l = DList { nodes: VecDeque::new() };
        assert(l@ =~= Seq::<T>::empty());
        l
    }

    /// Puts an item in front of the others.
    pub fn push_front(&mut self, elem: T)
        ensures
            final(self)@ == seq![elem] + old(self)@,
    {
        self.nodes.push_front(DNode { v: elem });
        assert(self@ =~= seq![elem] + old(self)@);
    }

    /// Takes the last item off.
    pub fn pop_back(&mut self) -> (r: Option<T>)
        ensures
            old(self)@.len() == 0 ==> r is None && final(self)@ == old(self)@,
            old(self)@.len() > 0 ==> r == Some(old(self)@.last()) && final(self)@ == old(self)@.drop_last(),
    {
        match self.nodes.pop_back() {
            Some(node) => {
                assert(self@ =~= old(self)@.drop_last());
                Some(node.v)
            },
            None => None,
        }
    }

    /// The first item.
    pub fn peek(&self) -> (r: Option<&T>)
        ensures
            self@.len() == 0 ==> r is None,
            self@.len() > 0 ==> r == Some(&self@[0]),
    {
        if self.nodes.len() == 0 {
            None
        } else {
            Some(&self.nodes[0].v)
        }
    }

    /// Takes out the item that stands `n` places behind the first, if
    /// there is one.
    pub fn popn(&mut self, n: usize) -> (r: Option<T>)
        ensures
            n >= old(self)@.len() ==> r is None && final(self)@ == old(self)@,
            n < old(self)@.len() ==> r == Some(old(self)@[n as int]) && final(self)@ == old(self)@.remove(
                n as int,
            ),
    {
        if n >= self.nodes.len() {
            return None;
        }
        match self.nodes.remove(n) {
            Some(node) => {
                assert(self@ =~= old(self)@.remove(n as int));
                Some(node.v)
            },
            None => None,
        }
    }

    /// A walk over the cells from the first on.
    pub fn iter(&self) -> (it: DListIter<'_, T>)
        ensures
            it@ == self@,
    {
        DListIter::new(self)
    }
}

/// A walk over the cells of a list.
pub struct DListIter<'a, T> {
    list: &'a DList<T>,
    next: usize,
}

impl<'a, T> View for DListIter<'a, T> {
    type V = Seq<T>;

    /// The items still to come.
    closed spec fn view(&self) -> Seq<T> {
        self.list@.skip(self.next as int)
    }
}

impl<'a, T> DListIter<'a, T> {
    pub closed spec fn wf(&self) -> bool {
        self.next <= self.list.nodes@.len()
    }

    pub fn new(list: &'a DList<T>) -> (it: Self)
        ensures
            it.wf(),
            it@ == list@,
    {
        let it = DListIter { list, next: 0 };
        assert(it@ =~= list@);
        it
    }

    /// The next cell, if one is left.
    pub fn next(&mut self) -> (r: Option<&'a DNode<T>>)
        requires
            old(self).wf(),
        ensures
            final(self).wf(),
            old(self)@.len() == 0 ==> r is None && final(self)@ == old(self)@,
            old(self)@.len() > 0 ==> r is Some && r->Some_0.v == old(self)@[0] && final(self)@ == old(
                self,
            )@.drop_first(),
    {
        if self.next >= self.list.nodes.len() {
            None
        } else {
            let node = &self.list.nodes[self.next];
            self.next += 1;
            assert(self@ =~= old(self)@.drop_first());
            Some(node)
        }
    }
}

} // verus!
