use vstd::prelude::*;

verus! {

/// A chain of cells that ends in `Nil`.
pub enum ListLink<T> {
    Cons(T, Box<ListLink<T>>),
    Nil,
}

impl<T> ListLink<T> {
    /// The items of the chain, the first cell's first.
    pub open spec fn elems(self) -> Seq<T>
        decreases self,
    {
        match self {
            ListLink::Cons(item, rest) => seq![item] + rest.elems(),
            ListLink::Nil => Seq::empty(),
        }
    }
}

/// A stack as a chain of cells: the item pushed last is the first.
pub struct List<T> {
    head: ListLink<T>,
}

impl<T> View for List<T> {
    type V = Seq<T>;

    closed spec fn view(&self) -> Seq<T> {
        self.head.elems()
    }
}

impl<T> List<T> {
    pub fn new() -> (l: Self)
        ensures
            l@ == Seq::<T>::empty(),
    {
        List { head: ListLink::Nil }
    }

    /// Puts an item in front of the others.
    pub fn push(&mut self, elem: T)
        ensures
            final(self)@ == seq![elem] + old(self)@,
    {
        let mut rest: ListLink<T> = ListLink::Nil;
        core::mem::swap(&mut self.head, &mut rest);
        self.head = ListLink::Cons(elem, Box::new(rest));
    }

    /// Takes the first item off.
    pub fn pop(&mut self) -> (r: Option<T>)
        ensures
            old(self)@.len() == 0 ==> r is None && final(self)@ == old(self)@,
            old(self)@.len() > 0 ==> r == Some(old(self)@[0]) && final(self)@ == old(self)@.drop_first(),
    {
        let mut taken: ListLink<T> = ListLink::Nil;
        core::mem::swap(&mut self.head, &mut taken);
        match taken {
            ListLink::Cons(item, rest) => {
                self.head = *rest;
                assert((seq![item] + rest.elems()).drop_first() =~= rest.elems());
                Some(item)
            },
            ListLink::Nil => None,
        }
    }

    /// The first item.
    pub fn peek(&self) -> (r: Option<&T>)
        ensures
            self@.len() == 0 ==> r is None,
            self@.len() > 0 ==> r == Some(&self@[0]),
    {
        match &self.head {
            ListLink::Cons(item, _) => Some(item),
            ListLink::Nil => None,
        }
    }

    /// A walk over the items from the first on.
    pub fn iter(&self) -> (it: ListIter<'_, T>)
        ensures
            it@ == self@,
    {
        ListIter::new(self)
    }

    /// Moves the first `n` items, or all if there are fewer, to a new list,
    /// one after the other to its front: they stand there in reverse order.
    pub fn take(&mut self, n: usize) -> (l: List<T>)
        ensures
            l@ == old(self)@.take(vstd::math::min(n as int, old(self)@.len() as int)).reverse(),
            final(self)@ == old(self)@.skip(vstd::math::min(n as int, old(self)@.len() as int)),
    {
        let mut new_list: List<T> = List::new();
        let mut i: usize = 0;
        let ghost all = self@;
        assert(all.take(0).reverse() =~= Seq::<T>::empty());
        assert(all.skip(0) =~= all);
        while i < n
            invariant
                i <= n,
                i <= all.len(),
                all == old(self)@,
                new_list@ == all.take(i as int).reverse(),
                self@ == all.skip(i as int),
            ensures
                i == vstd::math::min(n as int, all.len() as int),
                new_list@ == all.take(i as int).reverse(),
                self@ == all.skip(i as int),
            decreases n - i,
        {
            match self.pop() {
                Some(item) => {
                    new_list.push(item);
                    i += 1;
                    assert(new_list@ =~= all.take(i as int).reverse());
                    assert(self@ =~= all.skip(i as int));
                },
                None => {
                    break;
                },
            }
        }
        new_list
    }
}

/// A walk over the items of a list.
pub struct ListIter<'a, T> {
    next: &'a ListLink<T>,
}

impl<'a, T> View for ListIter<'a, T> {
    type V = Seq<T>;

    /// The items still to come.
    closed spec fn view(&self) -> Seq<T> {
        self.next.elems()
    }
}

impl<'a, T> ListIter<'a, T> {
    pub fn new(list: &'a List<T>) -> (it: Self)
        ensures
            it@ == list@,
    {
        ListIter { next: &list.head }
    }

    /// The next item, if one is left.
    pub fn next(&mut self) -> (r: Option<&'a T>)
        ensures
            old(self)@.len() == 0 ==> r is None && final(self)@ == old(self)@,
            old(self)@.len() > 0 ==> r == Some(&old(self)@[0]) && final(self)@ == old(self)@.drop_first(),
    {
        match self.next {
            ListLink::Cons(item, rest) => {
                assert((seq![*item] + rest.elems()).drop_first() =~= rest.elems());
                self.next = &**rest;
                Some(item)
            },
            ListLink::Nil => None,
        }
    }
}

} // verus!
