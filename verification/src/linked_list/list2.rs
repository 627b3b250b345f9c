use vstd::prelude::*;

verus! {

/// A cell of a list: an item and the rest of the chain.
pub struct Node<T> {
    elem: T,
    next: Option<Box<Node<T>>>,
}

/// The items of a chain of nodes, the first node's first.
pub closed spec fn chain_elems<T>(link: Option<Box<Node<T>>>) -> Seq<T>
    decreases link,
{
    match link {
        Some(node) => seq![node.elem] + chain_elems(node.next),
        None => Seq::empty(),
    }
}

/// A stack as a chain of nodes: the item pushed last is the first.
pub struct List<T> {
    head: Option<Box<Node<T>>>,
}

impl<T> View for List<T> {
    type V = Seq<T>;

    closed spec fn view(&self) -> Seq<T> {
        chain_elems(self.head)
    }
}

impl<T> List<T> {
    pub fn new() -> (l: Self)
        ensures
            l@ == Seq::<T>::empty(),
    {
        List { head: None }
    }

    /// Puts an item in front of the others.
    pub fn push(&mut self, elem: T)
        ensures
            final(self)@ == seq![elem] + old(self)@,
    {
        let node = Node { elem: elem, next: self.head.take() };
        self.head = Some(Box::new(node));
    }

    /// Takes the first item off.
    pub fn pop(&mut self) -> (r: Option<T>)
        ensures
            old(self)@.len() == 0 ==> r is None && final(self)@ == old(self)@,
            old(self)@.len() > 0 ==> r == Some(old(self)@[0]) && final(self)@ == old(self)@.drop_first(),
    {
        match self.head.take() {
            Some(node) => {
                let node: Node<T> = *node;
                assert((seq![node.elem] + chain_elems(node.next)).drop_first() =~= chain_elems(
                    node.next,
                ));
                self.head = node.next;
                Some(node.elem)
            },
            None => None,
        }
    }

    /// The first item.
    pub fn peek(&self) -> (r: Option<&T>)
        ensures
            self@.len() == 0 ==> r is None,
            self@.len() > 0 ==> r == Some(&self@[0]),
    {
        match &self.head {
            Some(node) => Some(&node.elem),
            None => None,
        }
    }

    /// A walk over the items from the first on.
    pub fn iter(&self) -> (it: ListIter<'_, T>)
        ensures
            it@ == self@,
    {
        ListIter::new(self)
    }

    /// Moves the first `n` items, or all if there are fewer, to a new list,
    /// one after the other to its front: they stand there in reverse order.
    pub fn take(&mut self, n: usize) -> (l: List<T>)
        ensures
            l@ == old(self)@.take(vstd::math::min(n as int, old(self)@.len() as int)).reverse(),
            final(self)@ == old(self)@.skip(vstd::math::min(n as int, old(self)@.len() as int)),
    {
        let mut new_list: List<T> = List::new();
        let mut i: usize = 0;
        let ghost all = self@;
        assert(all.take(0).reverse() =~= Seq::<T>::empty());
        assert(all.skip(0) =~= all);
        while i < n
            invariant
                i <= n,
                i <= all.len(),
                all == old(self)@,
                new_list@ == all.take(i as int).reverse(),
                self@ == all.skip(i as int),
            ensures
                i == vstd::math::min(n as int, all.len() as int),
                new_list@ == all.take(i as int).reverse(),
                self@ == all.skip(i as int),
            decreases n - i,
        {
            match self.pop() {
                Some(item) => {
                    new_list.push(item);
                    i += 1;
                    assert(new_list@ =~= all.take(i as int).reverse());
                    assert(self@ =~= all.skip(i as int));
                },
                None => {
                    break;
                },
            }
        }
        new_list
    }
}

/// A walk over the items of a list.
pub struct ListIter<'a, T> {
    next: &'a Option<Box<Node<T>>>,
}

impl<'a, T> View for ListIter<'a, T> {
    type V = Seq<T>;

    /// The items still to come.
    closed spec fn view(&self) -> Seq<T> {
        chain_elems(*self.next)
    }
}

impl<'a, T> ListIter<'a, T> {
    pub fn new(list: &'a List<T>) -> (it: Self)
        ensures
            it@ == list@,
    {
        ListIter { next: &list.head }
    }

    /// The next item, if one is left.
    pub fn next(&mut self) -> (r: Option<&'a T>)
        ensures
            old(self)@.len() == 0 ==> r is None && final(self)@ == old(self)@,
            old(self)@.len() > 0 ==> r == Some(&old(self)@[0]) && final(self)@ == old(self)@.drop_first(),
    {
        match self.next {
            Some(node) => {
                assert((seq![node.elem] + chain_elems(node.next)).drop_first() =~= chain_elems(
                    node.next,
                ));
                self.next = &node.next;
                Some(&node.elem)
            },
            None => None,
        }
    }
}

} // verus!
