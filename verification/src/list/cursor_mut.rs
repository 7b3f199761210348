use vstd::prelude::*;
use crate::list::{link_to, spare_after_push, LinkedList};
use crate::model::{next_position, pop_position, prev_position, valid_position};

verus! {

/// A position in an exclusively borrowed list, at which elements can be
/// inserted and removed.
///
/// The fields are public so that contracts can name the list that the
/// cursor hands back when its borrow ends. Code that writes them directly
/// gives up `wf`, which every method asks for.
pub struct CursorMut<'a, T> {
    pub node_ptr: Option<usize>,
    pub index: Option<usize>,
    pub borrow_mut: &'a mut LinkedList<T>,
}

impl<'a, T> CursorMut<'a, T> {
    /// The borrowed list is sound and the cursor stands on one of its
    /// nodes, at the index it reports, or on nothing where the list is
    /// empty.
    pub open spec fn wf(&self) -> bool {
        &&& self.borrow_mut.wf()
        &&& valid_position(self.index, self.borrow_mut@.len())
        &&& self.node_ptr == match self.index {
            Some(i) => link_to(self.borrow_mut.nodes(), i as int),
            None => None,
        }
    }

    /// The slots of the borrowed list's nodes, head to tail.
    spec fn order(&self) -> Seq<usize> {
        self.borrow_mut.order@
    }

    /// The elements of the borrowed list as they are now.
    pub open spec fn list(&self) -> Seq<T> {
        self.borrow_mut@
    }

    /// The index of the element the cursor stands on.
    pub open spec fn position(&self) -> Option<usize> {
        self.index
    }

    /// A cursor over `mut_borrow` that stands on nothing yet.
    fn new(mut_borrow: &'a mut LinkedList<T>) -> (cursor: Self)
        ensures
            *cursor.borrow_mut == *old(mut_borrow),
            *final(cursor.borrow_mut) == *final(mut_borrow),
            cursor.index is None,
            cursor.node_ptr is None,
    {
        CursorMut { node_ptr: None, index: None, borrow_mut: mut_borrow }
    }

    /// The index of the element the cursor stands on, if it stands on one.
    pub fn index(&self) -> (index: Option<usize>)
        ensures
            index == self.position(),
    {
        self.index
    }

    /// Whether the borrowed list holds no element.
    fn is_empty(&self) -> (b: bool)
        requires
            self.wf(),
        ensures
            b == (self.list().len() == 0),
    {
        self.borrow_mut.is_empty()
    }

    /// The current index and the node after it, unless the cursor stands
    /// on the last node or on none.
    fn find_next(&self) -> (found: Option<(usize, usize)>)
        requires
            self.wf(),
        ensures
            match self.index {
                Some(i) if i + 1 < self.order().len() => found == Some((i, self.order()[i + 1])),
                _ => found is None,
            },
    {
        let index = self.index?;
        if index >= self.borrow_mut.len() - 1 {
            return None;
        }
        proof {
            assert(self.borrow_mut.linked_at(index as int));
        }
        let next_ptr = self.borrow_mut.slots[self.node_ptr?].next?;
        Some((index, next_ptr))
    }

    /// The current index and the node before it, unless the cursor stands
    /// on the first node or on none.
    fn find_front(&self) -> (found: Option<(usize, usize)>)
        requires
            self.wf(),
        ensures
            match self.index {
                Some(i) if i > 0 => found == Some((i, self.order()[i - 1])),
                _ => found is None,
            },
    {
        let index = self.index?;
        if index == 0 {
            return None;
        }
        proof {
            assert(self.borrow_mut.linked_at(index as int));
        }
        let front_ptr = self.borrow_mut.slots[self.node_ptr?].front?;
        Some((index, front_ptr))
    }

    /// Moves one element towards the tail, and from the last element round
    /// to the first.
    pub fn move_next(&mut self)
        requires
            old(self).wf(),
        ensures
            final(self).wf(),
            *final(self).borrow_mut == *old(self).borrow_mut,
            *final(final(self).borrow_mut) == *final(old(self).borrow_mut),
            final(self).position() == next_position(old(self).position(), old(self).list().len()),
    {
        if self.is_empty() {
            self.node_ptr = None;
            self.index = None;
            return ;
        }
        let (index, next_ptr) = match self.find_next() {
            Some(t) => t,
            None => {
                self.index = Some(0);
                self.node_ptr = self.borrow_mut.head;
                return ;
            },
        };
        self.node_ptr = Some(next_ptr);
        self.index = Some(index + 1);
    }

    /// Moves one element towards the head, and from the first element round
    /// to the last.
    pub fn move_front(&mut self)
        requires
            old(self).wf(),
        ensures
            final(self).wf(),
            *final(self).borrow_mut == *old(self).borrow_mut,
            *final(final(self).borrow_mut) == *final(old(self).borrow_mut),
            final(self).position() == prev_position(old(self).position(), old(self).list().len()),
    {
        if self.is_empty() {
            self.node_ptr = None;
            self.index = None;
            return ;
        }
        let (index, front_ptr) = match self.find_front() {
            Some(t) => t,
            None => {
                self.index = Some(self.borrow_mut.len() - 1);
                self.node_ptr = self.borrow_mut.tail;
                return ;
            },
        };
        self.node_ptr = Some(front_ptr);
        self.index = Some(index - 1);
    }

    /// The element the cursor stands on, if it stands on one, for writing.
    /// What the caller leaves behind the reference takes that element's
    /// place.
    pub fn peek_mut(&mut self) -> (peeked: Option<&mut T>)
        requires
            old(self).wf(),
        ensures
            final(self).wf(),
            final(self).position() == old(self).position(),
            *final(final(self).borrow_mut) == *final(old(self).borrow_mut),
            final(self).borrow_mut.nodes() == old(self).borrow_mut.nodes(),
            final(self).borrow_mut.spare_slots() == old(self).borrow_mut.spare_slots(),
            match old(self).position() {
                Some(i) => {
                    &&& peeked is Some
                    &&& *peeked->0 == old(self).list()[i as int]
                    &&& final(self).list() == old(self).list().update(i as int, *final(peeked->0))
                },
                None => peeked is None && final(self).list() == old(self).list(),
            },
    {
        let ptr = self.node_ptr?;
        let ghost at = self.index->0 as int;
        proof {
            assert(self.borrow_mut.linked_at(at));
            LinkedList::lemma_replace_data(old(self).borrow_mut, final(self).borrow_mut, at);
        }
        self.borrow_mut.slots[ptr].data.as_mut()
    }

    /// Inserts `data` right after the element the cursor stands on, which
    /// stays the cursor's element. On an empty list `data` becomes the only
    /// element and the cursor moves onto it.
    pub fn push(&mut self, data: T)
        requires
            old(self).wf(),
        ensures
            final(self).wf(),
            *final(final(self).borrow_mut) == *final(old(self).borrow_mut),
            final(self).borrow_mut.spare_slots() == spare_after_push(
                old(self).borrow_mut.spare_slots(),
            ),
            final(self).list().len() == old(self).list().len() + 1,
            match old(self).position() {
                Some(i) => {
                    &&& final(self).list() == old(self).list().insert(i + 1, data)
                    &&& final(self).position() == Some(i)
                    &&& final(self).list()[i as int] == old(self).list()[i as int]
                },
                None => {
                    &&& final(self).list() == seq![data]
                    &&& final(self).position() == Some(0usize)
                },
            },
    {
        if self.is_empty() {
            self.borrow_mut.push_head(data);
            self.index = Some(0);
            self.node_ptr = self.borrow_mut.head;
            proof {
                assert(self.list() =~= seq![data]);
            }
            return ;
        }
        let ghost at = self.index->0 as int;
        let (_, next_ptr) = match self.find_next() {
            Some(t) => t,
            None => {
                self.borrow_mut.push_tail(data);
                proof {
                    assert(self.list() =~= old(self).list().insert(at + 1, data));
                }
                return ;
            },
        };
        let to_insert = self.borrow_mut.new_node(data);
        let current = match self.node_ptr {
            Some(current) => current,
            None => {
                return ;
            },
        };
        let ghost before = *self.borrow_mut;
        proof {
            assert(self.borrow_mut.linked_at(at));
            assert(self.borrow_mut.linked_at(at + 1));
            assert(self.borrow_mut.order@.len() < self.borrow_mut.slots.len());
        }
        let new_len = self.borrow_mut.len + 1;
        self.borrow_mut.slots[current].next = Some(to_insert);
        self.borrow_mut.slots[to_insert].next = Some(next_ptr);
        self.borrow_mut.slots[next_ptr].front = Some(to_insert);
        self.borrow_mut.slots[to_insert].front = Some(current);
        self.borrow_mut.len = new_len;
        proof {
            self.borrow_mut.order@ = before.order@.insert(at + 1, to_insert);
            assert forall|k: int| 0 <= k < self.borrow_mut.order@.len() implies #[trigger] self.borrow_mut.linked_at(
            k) by {
                if k <= at {
                    assert(before.linked_at(k));
                } else if k > at + 1 {
                    assert(before.linked_at(k - 1));
                }
            }
            assert forall|k: int| 0 <= k < self.borrow_mut.spare@.len() implies #[trigger] self.borrow_mut.spare_at(
            k) by {
                assert(before.spare_at(k));
            }
            assert forall|k: int| 0 <= k < self.borrow_mut.order@.len() implies self.list()[k]
                == old(self).list().insert(at + 1, data)[k] by {
                if k <= at {
                    assert(before.linked_at(k));
                } else if k > at + 1 {
                    assert(before.linked_at(k - 1));
                }
            }
            assert(self.list() =~= old(self).list().insert(at + 1, data));
        }
    }

    /// Removes the element the cursor stands on and returns it. The cursor
    /// moves onto the element before it, onto the new first element if it
    /// stood on the first, and onto nothing if the list is left empty.
    pub fn pop(&mut self) -> (popped: Option<T>)
        requires
            old(self).wf(),
        ensures
            final(self).wf(),
            *final(final(self).borrow_mut) == *final(old(self).borrow_mut),
            match old(self).position() {
                Some(i) => {
                    &&& popped == Some(old(self).list()[i as int])
                    &&& final(self).list() == old(self).list().remove(i as int)
                    &&& final(self).list().len() == old(self).list().len() - 1
                    &&& final(self).position() == pop_position(i, old(self).list().len())
                    &&& final(self).borrow_mut.spare_slots() == old(self).borrow_mut.spare_slots()
                        + 1
                },
                None => {
                    &&& popped is None
                    &&& final(self).list() == old(self).list()
                    &&& final(self).position() is None
                    &&& final(self).borrow_mut.spare_slots() == old(self).borrow_mut.spare_slots()
                },
            },
    {
        if self.borrow_mut.len() <= 1 {
            self.node_ptr = None;
            self.index = None;
            let data = self.borrow_mut.pop_head();
            proof {
                if old(self).index is Some {
                    assert(self.list() =~= old(self).list().remove(0));
                }
            }
            return data;
        }
        let current_ptr = self.node_ptr?;
        let ghost at = self.index->0 as int;
        let (index, front_ptr) = match self.find_front() {
            Some(t) => t,
            None => {
                let data = self.borrow_mut.pop_head();
                self.index = Some(0);
                self.node_ptr = self.borrow_mut.head;
                proof {
                    assert(self.list() =~= old(self).list().remove(0));
                }
                return data;
            },
        };
        let (_, next_ptr) = match self.find_next() {
            Some(t) => t,
            None => {
                let data = self.borrow_mut.pop_tail();
                self.index = Some(self.borrow_mut.len() - 1);
                self.node_ptr = self.borrow_mut.tail;
                proof {
                    assert(self.list() =~= old(self).list().remove(at));
                }
                return data;
            },
        };
        let len = self.borrow_mut.len() - 1;
        proof {
            assert(self.borrow_mut.linked_at(at - 1));
            assert(self.borrow_mut.linked_at(at));
            assert(self.borrow_mut.linked_at(at + 1));
        }
        self.borrow_mut.len = len;
        self.borrow_mut.slots[current_ptr].next = self.borrow_mut.free;
        self.borrow_mut.slots[current_ptr].front = None;
        self.borrow_mut.slots[next_ptr].front = Some(front_ptr);
        self.borrow_mut.slots[front_ptr].next = Some(next_ptr);
        self.borrow_mut.free = Some(current_ptr);
        let data = self.borrow_mut.slots[current_ptr].data.take();
        self.node_ptr = Some(front_ptr);
        self.index = Some(index - 1);
        proof {
            let ghost before = *old(self).borrow_mut;
            self.borrow_mut.order@ = before.order@.remove(at);
            self.borrow_mut.spare@ = seq![current_ptr].add(before.spare@);
            assert forall|k: int| 0 <= k < self.borrow_mut.order@.len() implies #[trigger] self.borrow_mut.linked_at(
            k) by {
                if k < at {
                    assert(before.linked_at(k));
                } else {
                    assert(before.linked_at(k + 1));
                }
            }
            assert forall|k: int| 0 <= k < self.borrow_mut.spare@.len() implies #[trigger] self.borrow_mut.spare_at(
            k) by {
                if k > 0 {
                    assert(before.spare_at(k - 1));
                }
            }
            assert forall|i: int, j: int|
                0 <= i < j < self.borrow_mut.spare@.len() implies self.borrow_mut.spare@[i]
                != self.borrow_mut.spare@[j] by {
                assert(before.spare_at(j - 1));
            }
            assert forall|k: int| 0 <= k < self.borrow_mut.order@.len() implies self.list()[k]
                == old(self).list().remove(at)[k] by {
                if k < at {
                    assert(before.linked_at(k));
                } else {
                    assert(before.linked_at(k + 1));
                }
            }
            assert(self.list() =~= old(self).list().remove(at));
        }
        data
    }
}

impl<T> LinkedList<T> {
    /// A mutating cursor on the first element, or on nothing if the list
    /// is empty. The list is what the cursor leaves of it.
    pub fn cursor_mut_head(&mut self) -> (cursor: CursorMut<'_, T>)
        requires
            old(self).wf(),
        ensures
            cursor.wf(),
            *cursor.borrow_mut == *old(self),
            *final(cursor.borrow_mut) == *final(self),
            cursor.position() == if old(self)@.len() == 0 {
                None
            } else {
                Some(0usize)
            },
    {
        let len = self.len();
        let head = self.head;
        let mut cursor = CursorMut::new(self);
        if len == 0 || head.is_none() {
            return cursor;
        }
        cursor.index = Some(0);
        cursor.node_ptr = head;
        cursor
    }

    /// A mutating cursor on the last element, or on nothing if the list is
    /// empty. The list is what the cursor leaves of it.
    pub fn cursor_mut_tail(&mut self) -> (cursor: CursorMut<'_, T>)
        requires
            old(self).wf(),
        ensures
            cursor.wf(),
            *cursor.borrow_mut == *old(self),
            *final(cursor.borrow_mut) == *final(self),
            cursor.position() == if old(self)@.len() == 0 {
                None
            } else {
                Some((old(self)@.len() - 1) as usize)
            },
    {
        let len = self.len();
        let tail = self.tail;
        let mut cursor = CursorMut::new(self);
        if len == 0 || tail.is_none() {
            return cursor;
        }
        cursor.index = Some(len - 1);
        cursor.node_ptr = tail;
        cursor
    }
}

} // verus!
