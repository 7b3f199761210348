use vstd::prelude::*;
use crate::list::{link_to, LinkedList};
use crate::model::{next_position, prev_position, valid_position};

verus! {

/// A read-only position in a borrowed list.
pub struct Cursor<'a, T> {
    node_ptr: Option<usize>,
    index: Option<usize>,
    borrow: &'a LinkedList<T>,
}

impl<'a, T> Cursor<'a, T> {
    /// The cursor stands on a node of a sound list, at the index it
    /// reports, or on nothing where the list is empty.
    pub closed spec fn wf(&self) -> bool {
        &&& self.borrow.wf()
        &&& valid_position(self.index, self.borrow.order@.len())
        &&& self.node_ptr == match self.index {
            Some(i) => link_to(self.borrow.order@, i as int),
            None => None,
        }
    }

    /// The elements of the borrowed list.
    pub closed spec fn list(&self) -> Seq<T> {
        self.borrow@
    }

    /// The index of the element the cursor stands on.
    pub closed spec fn position(&self) -> Option<usize> {
        self.index
    }

    /// A cursor over `borrow` that stands on nothing yet.
    fn new(borrow: &'a LinkedList<T>) -> (cursor: Self)
        ensures
            cursor.borrow == borrow,
            cursor.index is None,
            cursor.node_ptr is None,
    {
        Cursor { node_ptr: None, index: None, borrow }
    }

    /// Whether the borrowed list holds no element.
    pub fn is_empty(&self) -> (b: bool)
        requires
            self.wf(),
        ensures
            b == (self.list().len() == 0),
    {
        self.borrow.len() == 0
    }

    /// The index of the element the cursor stands on, if it stands on one.
    pub fn index(&self) -> (index: Option<usize>)
        ensures
            index == self.position(),
    {
        self.index
    }

    /// The current index and the node after it, unless the cursor stands
    /// on the last node or on none.
    fn find_next(&self) -> (found: Option<(usize, usize)>)
        requires
            self.wf(),
        ensures
            match self.index {
                Some(i) if i + 1 < self.borrow.order@.len() => found == Some(
                    (i, self.borrow.order@[i + 1]),
                ),
                _ => found is None,
            },
    {
        let index = self.index?;
        if index >= self.borrow.len() - 1 {
            return None;
        }
        proof {
            assert(self.borrow.linked_at(index as int));
        }
        let next_ptr = self.borrow.slots[self.node_ptr?].next?;
        Some((index, next_ptr))
    }

    /// The current index and the node before it, unless the cursor stands
    /// on the first node or on none.
    fn find_front(&self) -> (found: Option<(usize, usize)>)
        requires
            self.wf(),
        ensures
            match self.index {
                Some(i) if i > 0 => found == Some((i, self.borrow.order@[i - 1])),
                _ => found is None,
            },
    {
        let index = self.index?;
        if index == 0 {
            return None;
        }
        proof {
            assert(self.borrow.linked_at(index as int));
        }
        let front_ptr = self.borrow.slots[self.node_ptr?].front?;
        Some((index, front_ptr))
    }

    /// Moves one element towards the tail, and from the last element round
    /// to the first.
    pub fn move_next(&mut self)
        requires
            old(self).wf(),
        ensures
            final(self).wf(),
            final(self).list() == old(self).list(),
            final(self).position() == next_position(old(self).position(), old(self).list().len()),
    {
        if self.is_empty() {
            self.node_ptr = None;
            self.index = None;
            return ;
        }
        let (index, next_ptr) = match self.find_next() {
            None => {
                self.index = Some(0);
                self.node_ptr = self.borrow.head;
                return ;
            },
            Some(t) => t,
        };
        self.node_ptr = Some(next_ptr);
        self.index = Some(index + 1);
    }

    /// Moves one element towards the head, and from the first element round
    /// to the last.
    pub fn move_front(&mut self)
        requires
            old(self).wf(),
        ensures
            final(self).wf(),
            final(self).list() == old(self).list(),
            final(self).position() == prev_position(old(self).position(), old(self).list().len()),
    {
        if self.is_empty() {
            self.node_ptr = None;
            self.index = None;
            return ;
        }
        let (index, front_ptr) = match self.find_front() {
            Some(t) => t,
            None => {
                self.index = Some(self.borrow.len() - 1);
                self.node_ptr = self.borrow.tail;
                return ;
            },
        };
        self.node_ptr = Some(front_ptr);
        self.index = Some(index - 1);
    }

    /// The element the cursor stands on, if it stands on one.
    pub fn peek(&self) -> (peeked: Option<&T>)
        requires
            self.wf(),
        ensures
            match self.position() {
                Some(i) => peeked == Some(&self.list()[i as int]),
                None => peeked is None,
            },
    {
        let ptr = self.node_ptr?;
        let index = self.index?;
        proof {
            assert(self.borrow.linked_at(index as int));
        }
        self.borrow.slots[ptr].data.as_ref()
    }
}

impl<T> LinkedList<T> {
    /// A cursor on the first element, or on nothing if the list is empty.
    pub fn cursor_head(&self) -> (cursor: Cursor<'_, T>)
        requires
            self.wf(),
        ensures
            cursor.wf(),
            cursor.list() == self@,
            cursor.position() == if self@.len() == 0 {
                None
            } else {
                Some(0usize)
            },
    {
        let mut cursor = Cursor::new(self);
        if self.len() == 0 || self.head.is_none() {
            return cursor;
        }
        cursor.index = Some(0);
        cursor.node_ptr = self.head;
        cursor
    }

    /// A cursor on the last element, or on nothing if the list is empty.
    pub fn cursor_tail(&self) -> (cursor: Cursor<'_, T>)
        requires
            self.wf(),
        ensures
            cursor.wf(),
            cursor.list() == self@,
            cursor.position() == if self@.len() == 0 {
                None
            } else {
                Some((self@.len() - 1) as usize)
            },
    {
        let mut cursor = Cursor::new(self);
        if self.len() == 0 || self.tail.is_none() {
            return cursor;
        }
        cursor.index = Some(self.len() - 1);
        cursor.node_ptr = self.tail;
        cursor
    }
}

} // verus!
