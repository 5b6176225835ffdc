//! Immutable singly linked lists built by type-level composition: a `Cons`
//! holds a head item and any tail that is itself a list, `Nil` ends a list,
//! and a boxed list is a list. Every list abstracts to the sequence of its
//! items from head to tail.

use std::marker::PhantomData;
use vstd::prelude::*;

verus! {

/// The operations of an immutable singly linked list.
pub trait LinkedList {
    type Item;

    /// The items from head to tail.
    spec fn items(&self) -> Seq<Self::Item>;

    /// The first item, if there is one.
    fn head<'a>(&'a self) -> (r: Option<&'a Self::Item>)
        ensures
            match r {
                Option::None => self.items().len() == 0,
                Option::Some(v) => self.items().len() > 0 && *v == self.items()[0],
            },
    ;

    /// Append references to all the items, head first, to `out`.
    fn push_refs<'a>(&'a self, out: &mut Vec<&'a Self::Item>)
        ensures
            final(out)@.len() == old(out)@.len() + self.items().len(),
            forall|i: int| 0 <= i < old(out)@.len() ==> final(out)@[i] == old(out)@[i],
            forall|i: int|
                0 <= i < self.items().len() ==> *final(out)@[old(out)@.len() + i]
                    == self.items()[i],
    ;

    /// An iterator over references to the items, head first.
    fn iter<'a>(&'a self) -> (it: LinkedListIter<'a, Self::Item>)
        ensures
            it.wf(),
            it.remaining() == self.items(),
    ;
}

/// A walk over the items of a list, yielding references head first.
pub struct LinkedListIter<'a, T> {
    items: Vec<&'a T>,
    next: usize,
}

impl<'a, T> LinkedListIter<'a, T> {
    /// The walk never runs past the end.
    pub closed spec fn wf(self) -> bool {
        self.next <= self.items@.len()
    }

    /// The items not yet yielded.
    pub closed spec fn remaining(self) -> Seq<T> {
        Seq::new((self.items@.len() - self.next) as nat, |i: int| *self.items@[self.next + i])
    }

    /// Yield a reference to the next item, or `None` after the last one.
    pub fn next(&mut self) -> (r: Option<&'a T>)
        requires
            old(self).wf(),
        ensures
            final(self).wf(),
            old(self).remaining().len() == 0 ==> r is None
                && final(self).remaining() == old(self).remaining(),
            old(self).remaining().len() > 0 ==> (r matches Some(v)
                && *v == old(self).remaining()[0]
                && final(self).remaining() == old(self).remaining().drop_first()),
    {
        if self.next < self.items.len() {
            let r = self.items[self.next];
            self.next = self.next + 1;
            proof {
                assert(final(self).remaining() =~= old(self).remaining().drop_first());
            }
            Option::Some(r)
        } else {
            proof {
                assert(final(self).remaining() =~= old(self).remaining());
            }
            Option::None
        }
    }
}

/// A list with a head item and a tail list.
pub struct Cons<T, L> {
    pub h: T,
    pub t: L,
}

/// The empty list.
pub struct Nil<T> {
    pub _p: PhantomData<T>,
}

impl<T, L> Cons<T, L> {
    /// The tail of the list.
    pub fn tail(&self) -> (r: &L)
        ensures
            *r == self.t,
    {
        &self.t
    }
}

impl<T, L: LinkedList<Item = T>> LinkedList for Cons<T, L> {
    type Item = T;

    open spec fn items(&self) -> Seq<T> {
        seq![self.h] + self.t.items()
    }

    fn head<'a>(&'a self) -> (r: Option<&'a T>) {
        proof {
            assert(self.items()[0] == self.h);
        }
        Option::Some(&self.h)
    }

    fn push_refs<'a>(&'a self, out: &mut Vec<&'a T>) {
        out.push(&self.h);
        self.t.push_refs(out);
    }

    fn iter<'a>(&'a self) -> (it: LinkedListIter<'a, T>) {
        let mut items: Vec<&'a T> = Vec::new();
        self.push_refs(&mut items);
        let it = LinkedListIter { items, next: 0 };
        proof {
            assert(it.remaining() =~= self.items());
        }
        it
    }
}

impl<T> LinkedList for Nil<T> {
    type Item = T;

    open spec fn items(&self) -> Seq<T> {
        Seq::empty()
    }

    fn head<'a>(&'a self) -> (r: Option<&'a T>) {
        Option::None
    }

    fn push_refs<'a>(&'a self, out: &mut Vec<&'a T>) {
    }

    fn iter<'a>(&'a self) -> (it: LinkedListIter<'a, T>) {
        let items: Vec<&'a T> = Vec::new();
        let it = LinkedListIter { items, next: 0 };
        proof {
            assert(it.remaining() =~= self.items());
        }
        it
    }
}

impl<L: LinkedList> LinkedList for Box<L> {
    type Item = L::Item;

    open spec fn items(&self) -> Seq<L::Item> {
        (**self).items()
    }

    fn head<'a>(&'a self) -> (r: Option<&'a L::Item>) {
        (**self).head()
    }

    fn push_refs<'a>(&'a self, out: &mut Vec<&'a L::Item>) {
        (**self).push_refs(out);
    }

    fn iter<'a>(&'a self) -> (it: LinkedListIter<'a, L::Item>) {
        (**self).iter()
    }
}

} // verus!
