use vstd::prelude::*;
use crate::list::{link_to, LinkedList};

verus! {

/// A forward traversal of a borrowed list that hands out shared
/// references to its elements.
pub struct Iter<'a, T> {
    ptr: Option<usize>,
    borrow: &'a LinkedList<T>,
    passed: Ghost<nat>,
}

impl<'a, T> Iter<'a, T> {
    /// The borrowed list is sound and `ptr` names the node that follows
    /// the `passed` elements already handed out.
    pub closed spec fn wf(&self) -> bool {
        &&& self.borrow.wf()
        &&& self.passed@ <= self.borrow.order@.len()
        &&& self.ptr == link_to(self.borrow.order@, self.passed@ as int)
    }

    /// The elements of the borrowed list.
    pub closed spec fn list(&self) -> Seq<T> {
        self.borrow@
    }

    /// The elements still to come, in the order in which they will come.
    pub closed spec fn remaining(&self) -> Seq<T> {
        self.borrow@.subrange(self.passed@ as int, self.borrow@.len() as int)
    }

    /// The next element, or `None` once the tail has been passed.
    pub fn next(&mut self) -> (item: Option<&'a T>)
        requires
            old(self).wf(),
        ensures
            final(self).wf(),
            final(self).list() == old(self).list(),
            old(self).remaining().len() == 0 ==> {
                &&& item is None
                &&& final(self).remaining() == old(self).remaining()
            },
            old(self).remaining().len() > 0 ==> {
                &&& item == Some(&old(self).remaining()[0])
                &&& final(self).remaining() == old(self).remaining().drop_first()
            },
    {
        let ptr = self.ptr?;
        let list: &'a LinkedList<T> = self.borrow;
        proof {
            assert(list.linked_at(self.passed@ as int));
        }
        self.ptr = list.slots[ptr].next;
        proof {
            self.passed@ = self.passed@ + 1;
            assert(self.remaining() =~= old(self).remaining().drop_first());
        }
        list.slots[ptr].data.as_ref()
    }
}

/// A forward traversal of an exclusively borrowed list that hands out,
/// one at a time, exclusive references to its elements.
///
/// The fields are public so that contracts can name the list that the
/// traversal hands back when its borrow ends. Code that writes them
/// directly gives up `wf`.
pub struct IterMut<'a, T> {
    pub ptr: Option<usize>,
    pub borrow: &'a mut LinkedList<T>,
    pub passed: Ghost<nat>,
}

impl<'a, T> IterMut<'a, T> {
    /// The borrowed list is sound and `ptr` names the node that follows
    /// the `passed` elements already handed out.
    pub open spec fn wf(&self) -> bool {
        &&& self.borrow.wf()
        &&& self.passed@ <= self.borrow@.len()
        &&& self.ptr == link_to(self.borrow.nodes(), self.passed@ as int)
    }

    /// The elements of the borrowed list as they are now.
    pub open spec fn list(&self) -> Seq<T> {
        self.borrow@
    }

    /// The elements still to come, in the order in which they will come.
    pub open spec fn remaining(&self) -> Seq<T> {
        self.borrow@.subrange(self.passed@ as int, self.borrow@.len() as int)
    }

    /// The next element for writing, or `None` once the tail has been
    /// passed. What the caller leaves behind the reference takes that
    /// element's place in the list; no link is touched.
    pub fn next(&mut self) -> (item: Option<&mut T>)
        requires
            old(self).wf(),
        ensures
            final(self).wf(),
            *final(final(self).borrow) == *final(old(self).borrow),
            final(self).borrow.nodes() == old(self).borrow.nodes(),
            final(self).borrow.spare_slots() == old(self).borrow.spare_slots(),
            old(self).remaining().len() == 0 ==> {
                &&& item is None
                &&& final(self).list() == old(self).list()
                &&& final(self).passed@ == old(self).passed@
            },
            old(self).remaining().len() > 0 ==> {
                &&& item is Some
                &&& *item->0 == old(self).remaining()[0]
                &&& final(self).list() == old(self).list().update(
                    old(self).passed@ as int,
                    *final(item->0),
                )
                &&& final(self).passed@ == old(self).passed@ + 1
            },
    {
        let ptr = self.ptr?;
        let ghost at = self.passed@ as int;
        proof {
            assert(self.borrow.linked_at(at));
        }
        self.ptr = self.borrow.slots[ptr].next;
        proof {
            self.passed@ = self.passed@ + 1;
            LinkedList::lemma_replace_data(old(self).borrow, final(self).borrow, at);
        }
        self.borrow.slots[ptr].data.as_mut()
    }
}

/// A traversal that owns its list and hands out the elements themselves,
/// head first.
pub struct IntoIter<T> {
    list: LinkedList<T>,
}

impl<T> IntoIter<T> {
    /// The owned list is sound.
    pub closed spec fn wf(&self) -> bool {
        self.list.wf()
    }

    /// The elements still to come, in the order in which they will come.
    pub closed spec fn remaining(&self) -> Seq<T> {
        self.list@
    }

    /// The next element, removed from the list, or `None` once the list is
    /// empty.
    pub fn next(&mut self) -> (item: Option<T>)
        requires
            old(self).wf(),
        ensures
            final(self).wf(),
            old(self).remaining().len() == 0 ==> {
                &&& item is None
                &&& final(self).remaining() == old(self).remaining()
            },
            old(self).remaining().len() > 0 ==> {
                &&& item == Some(old(self).remaining()[0])
                &&& final(self).remaining() == old(self).remaining().drop_first()
            },
    {
        self.list.pop_head()
    }
}

impl<T> LinkedList<T> {
    /// A traversal of the whole list by shared reference.
    pub fn iter(&self) -> (iter: Iter<'_, T>)
        requires
            self.wf(),
        ensures
            iter.wf(),
            iter.list() == self@,
            iter.remaining() == self@,
    {
        let iter = Iter { ptr: self.head, borrow: self, passed: Ghost(0) };
        proof {
            assert(iter.remaining() =~= self@);
        }
        iter
    }

    /// A traversal of the whole list by exclusive reference. The list is
    /// what the traversal leaves of it.
    pub fn iter_mut(&mut self) -> (iter: IterMut<'_, T>)
        requires
            old(self).wf(),
        ensures
            iter.wf(),
            iter.passed@ == 0,
            *iter.borrow == *old(self),
            *final(iter.borrow) == *final(self),
    {
        IterMut { ptr: self.head, borrow: self, passed: Ghost(0) }
    }

    /// Turns the list into a traversal that owns it.
    pub fn into_iter(self) -> (iter: IntoIter<T>)
        requires
            self.wf(),
        ensures
            iter.wf(),
            iter.remaining() == self@,
    {
        IntoIter { list: self }
    }
}

} // verus!
