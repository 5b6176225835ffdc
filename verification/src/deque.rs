//! A double-ended queue. The contents are modelled as the sequence of items
//! from first to last; every operation says exactly what it does to that
//! sequence. The storage is a growable array rather than linked nodes, so no
//! pointer juggling is needed and every operation is verified.

use vstd::prelude::*;

verus! {

/// The operations of a double-ended queue.
pub trait DequeT {
    type Item;

    /// The items from first to last.
    spec fn items(&self) -> Seq<Self::Item>;

    /// Whether the deque holds nothing.
    fn is_empty(&self) -> (r: bool)
        ensures
            r == (self.items().len() == 0),
    ;

    /// How many items the deque holds.
    fn size(&self) -> (r: usize)
        ensures
            r == self.items().len(),
    ;

    /// Put an item before the current first one.
    fn add_first(&mut self, item: Self::Item)
        ensures
            final(self).items() == old(self).items().insert(0, item),
    ;

    /// Put an item after the current last one.
    fn add_last(&mut self, item: Self::Item)
        ensures
            final(self).items() == old(self).items().push(item),
    ;

    /// Take the first item out, if there is one.
    fn remove_first(&mut self) -> (r: Option<Self::Item>)
        ensures
            old(self).items().len() == 0 ==> r is None && final(self).items() == old(self).items(),
            old(self).items().len() > 0 ==> (r == Some(old(self).items()[0]) && final(self).items()
                == old(self).items().drop_first()),
    ;

    /// Take the last item out, if there is one.
    fn remove_last(&mut self) -> (r: Option<Self::Item>)
        ensures
            old(self).items().len() == 0 ==> r is None && final(self).items() == old(self).items(),
            old(self).items().len() > 0 ==> (r == Some(old(self).items().last())
                && final(self).items() == old(self).items().drop_last()),
    ;
}

pub struct Deque<Item> {
    items: Vec<Item>,
}

impl<Item> Deque<Item> {
    /// An empty deque.
    pub fn new() -> (d: Deque<Item>)
        ensures
            d.items() == Seq::<Item>::empty(),
    {
        Deque { items: Vec::new() }
    }

    /// An iterator over the items, from first to last.
    pub fn iter<'a>(&'a self) -> (it: DequeIter<'a, Item>)
        ensures
            it.wf(),
            it.remaining() == self.items(),
    {
        let it = DequeIter { next: 0, deque: self };
        proof {
            assert(it.remaining() =~= self.items());
        }
        it
    }
}

impl<Item> DequeT for Deque<Item> {
    type Item = Item;

    closed spec fn items(&self) -> Seq<Item> {
        self.items@
    }

    fn is_empty(&self) -> (r: bool)
        ensures
            r == (self.items().len() == 0),
    {
        self.items.len() == 0
    }

    fn size(&self) -> (r: usize)
        ensures
            r == self.items().len(),
    {
        self.items.len()
    }

    fn add_first(&mut self, item: Item)
        ensures
            final(self).items() == old(self).items().insert(0, item),
    {
        self.items.insert(0, item);
    }

    fn add_last(&mut self, item: Item)
        ensures
            final(self).items() == old(self).items().push(item),
    {
        self.items.push(item);
    }

    fn remove_first(&mut self) -> (r: Option<Item>)
        ensures
            old(self).items().len() == 0 ==> r is None && final(self).items() == old(self).items(),
            old(self).items().len() > 0 ==> (r == Some(old(self).items()[0]) && final(self).items()
                == old(self).items().drop_first()),
    {
        if self.items.len() == 0 {
            Option::None
        } else {
            let item = self.items.remove(0);
            proof {
                assert(self.items@ =~= old(self).items().drop_first());
            }
            Option::Some(item)
        }
    }

    fn remove_last(&mut self) -> (r: Option<Item>)
        ensures
            old(self).items().len() == 0 ==> r is None && final(self).items() == old(self).items(),
            old(self).items().len() > 0 ==> (r == Some(old(self).items().last())
                && final(self).items() == old(self).items().drop_last()),
    {
        let r = self.items.pop();
        proof {
            if old(self).items().len() > 0 {
                assert(self.items@ =~= old(self).items().drop_last());
            }
        }
        r
    }
}

/// A position-based walk over a deque, yielding references from first to
/// last.
pub struct DequeIter<'a, Item> {
    next: usize,
    deque: &'a Deque<Item>,
}

impl<'a, Item> DequeIter<'a, Item> {
    /// The walk never runs past the end.
    pub closed spec fn wf(self) -> bool {
        self.next <= self.deque.items().len()
    }

    /// The items not yet yielded.
    pub closed spec fn remaining(self) -> Seq<Item> {
        self.deque.items().skip(self.next as int)
    }

    /// Yield a reference to the next item, or `None` after the last one.
    pub fn next(&mut self) -> (r: Option<&'a Item>)
        requires
            old(self).wf(),
        ensures
            final(self).wf(),
            old(self).remaining().len() == 0 ==> r is None
                && final(self).remaining() == old(self).remaining(),
            old(self).remaining().len() > 0 ==> (r matches Some(v)
                && *v == old(self).remaining()[0]
                && final(self).remaining() == old(self).remaining().drop_first()),
    {
        if self.next < self.deque.items.len() {
            let r = &self.deque.items[self.next];
            self.next = self.next + 1;
            proof {
                assert(final(self).remaining() =~= old(self).remaining().drop_first());
            }
            Option::Some(r)
        } else {
            Option::None
        }
    }
}

} // verus!
