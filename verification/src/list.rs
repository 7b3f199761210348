use std::collections::TryReserveError;
use vstd::prelude::*;

pub mod cursor;
pub mod cursor_mut;
pub mod iter;

verus! {

/// One arena slot: a node of the list while `data` is present, a member of
/// the spare chain otherwise.
struct Slot<T> {
    front: Option<usize>,
    next: Option<usize>,
    data: Option<T>,
}

/// Why a fallible push left the list unchanged.
#[derive(Clone, Copy, Debug, PartialEq, Eq, Structural)]
pub enum PushError {
    /// The arena had no spare slot and could not grow.
    AllocationFailed,
}

impl PushError {
    /// The error in words.
    pub fn message(&self) -> (text: &'static str)
        ensures
            text@ == "Allocation Failed"@,
    {
        match self {
            PushError::AllocationFailed => "Allocation Failed",
        }
    }
}

/// A doubly-linked list.
///
/// `order` lists the slots of the live nodes from head to tail and `spare`
/// lists the unused slots in the order in which they will be reused.
pub struct LinkedList<T> {
    slots: Vec<Slot<T>>,
    head: Option<usize>,
    tail: Option<usize>,
    free: Option<usize>,
    len: usize,
    order: Ghost<Seq<usize>>,
    spare: Ghost<Seq<usize>>,
}

/// The link to position `j` of `chain`: the slot that stands there, and
/// nothing when `j` falls outside the chain.
pub open spec fn link_to(chain: Seq<usize>, j: int) -> Option<usize> {
    if 0 <= j < chain.len() {
        Some(chain[j])
    } else {
        None
    }
}

/// The number of spare slots that a push leaves of `spare`: it uses one
/// where there is one.
pub open spec fn spare_after_push(spare: nat) -> nat {
    if spare > 0 {
        (spare - 1) as nat
    } else {
        0
    }
}

impl<T> LinkedList<T> {
    /// The node at position `i` is stored in a live slot whose two links
    /// name its neighbours in `order`.
    spec fn linked_at(&self, i: int) -> bool {
        let s = self.order@[i];
        &&& s < self.slots@.len()
        &&& self.slots@[s as int].data is Some
        &&& self.slots@[s as int].front == link_to(self.order@, i - 1)
        &&& self.slots@[s as int].next == link_to(self.order@, i + 1)
    }

    /// The spare slot at position `i` is empty and chained to the next one.
    spec fn spare_at(&self, i: int) -> bool {
        let s = self.spare@[i];
        &&& s < self.slots@.len()
        &&& self.slots@[s as int].data is None
        &&& self.slots@[s as int].next == link_to(self.spare@, i + 1)
    }

    /// Head, tail and length agree with the chain of live nodes,
    /// neighbouring nodes point at each other, the boundary nodes point
    /// outward at nothing, and the spare slots form a chain of their own.
    spec fn chained(&self) -> bool {
        &&& self.len == self.order@.len()
        &&& self.head == link_to(self.order@, 0)
        &&& self.tail == link_to(self.order@, self.order@.len() - 1)
        &&& self.free == link_to(self.spare@, 0)
        &&& forall|i: int| 0 <= i < self.order@.len() ==> #[trigger] self.linked_at(i)
        &&& forall|i: int| 0 <= i < self.spare@.len() ==> #[trigger] self.spare_at(i)
        &&& forall|i: int, j: int|
            0 <= i < j < self.order@.len() ==> self.order@[i] != self.order@[j]
        &&& forall|i: int, j: int|
            0 <= i < j < self.spare@.len() ==> self.spare@[i] != self.spare@[j]
    }

    /// The structural invariant: the two chains are sound and every slot of
    /// the arena is either one live node or one spare slot.
    pub closed spec fn wf(&self) -> bool {
        &&& self.chained()
        &&& self.order@.len() + self.spare@.len() == self.slots@.len()
    }

    /// The state between allocation and splice: the chains are sound and
    /// `node` is the one slot that holds an element without being linked.
    spec fn detached(&self, node: usize) -> bool {
        &&& self.chained()
        &&& self.order@.len() + self.spare@.len() + 1 == self.slots@.len()
        &&& node < self.slots@.len()
        &&& self.slots@[node as int].data is Some
        &&& self.slots@[node as int].front is None
        &&& self.slots@[node as int].next is None
        &&& forall|i: int| 0 <= i < self.order@.len() ==> self.order@[i] != node
    }

    /// The elements from head to tail.
    pub closed spec fn elements(&self) -> Seq<T> {
        Seq::new(self.order@.len(), |i: int| self.slots@[self.order@[i] as int].data->0)
    }

    /// The arena slot of each element, from head to tail. A slot keeps
    /// naming the same element for as long as that element is in the list.
    pub closed spec fn nodes(&self) -> Seq<usize> {
        self.order@
    }

    /// How many pushes are certain to succeed without growing the arena.
    pub closed spec fn spare_slots(&self) -> nat {
        self.spare@.len()
    }

    /// The slot of the first node, absent when the list is empty.
    pub closed spec fn head_node(&self) -> Option<usize> {
        self.head
    }

    /// The slot of the last node, absent when the list is empty.
    pub closed spec fn tail_node(&self) -> Option<usize> {
        self.tail
    }

    /// The forward link of the node in slot `node`.
    pub closed spec fn next_of(&self, node: usize) -> Option<usize> {
        self.slots@[node as int].next
    }

    /// The backward link of the node in slot `node`.
    pub closed spec fn front_of(&self, node: usize) -> Option<usize> {
        self.slots@[node as int].front
    }

    /// The element held by the node in slot `node`.
    pub closed spec fn data_of(&self, node: usize) -> T {
        self.slots@[node as int].data->0
    }

    /// The node reached from `from` by following the forward link `n`
    /// times; nothing once a link was absent.
    pub open spec fn follow_next(&self, from: Option<usize>, n: nat) -> Option<usize>
        decreases n,
    {
        if n == 0 {
            from
        } else {
            match self.follow_next(from, (n - 1) as nat) {
                Some(node) => self.next_of(node),
                None => None,
            }
        }
    }

    /// The node reached from `from` by following the backward link `n`
    /// times; nothing once a link was absent.
    pub open spec fn follow_front(&self, from: Option<usize>, n: nat) -> Option<usize>
        decreases n,
    {
        if n == 0 {
            from
        } else {
            match self.follow_front(from, (n - 1) as nat) {
                Some(node) => self.front_of(node),
                None => None,
            }
        }
    }

    /// In a sound list there is one node for each element, head and tail
    /// name the first and the last of them, and both are absent exactly
    /// when the list holds no element.
    pub proof fn lemma_boundaries(&self)
        requires
            self.wf(),
        ensures
            self.nodes().len() == self@.len(),
            self@.len() <= usize::MAX,
            self.head_node() == link_to(self.nodes(), 0),
            self.tail_node() == link_to(self.nodes(), self@.len() - 1),
            self@.len() == 0 <==> self.head_node() is None,
            self@.len() == 0 <==> self.tail_node() is None,
            self@.len() == 1 ==> self.head_node() == self.tail_node(),
    {
    }

    /// In a sound list the node at position `i` holds the `i`-th element,
    /// its backward link names the node at `i - 1` and its forward link the
    /// node at `i + 1`, each absent where that position falls outside the
    /// list. So neighbours point at each other and the boundary nodes point
    /// outward at nothing.
    pub proof fn lemma_links(&self, i: int)
        requires
            self.wf(),
            0 <= i < self@.len(),
        ensures
            self.data_of(self.nodes()[i]) == self@[i],
            self.front_of(self.nodes()[i]) == link_to(self.nodes(), i - 1),
            self.next_of(self.nodes()[i]) == link_to(self.nodes(), i + 1),
    {
        assert(self.linked_at(i));
    }

    /// In a sound list no slot holds two nodes.
    pub proof fn lemma_nodes_distinct(&self, i: int, j: int)
        requires
            self.wf(),
            0 <= i < self@.len(),
            0 <= j < self@.len(),
            i != j,
        ensures
            self.nodes()[i] != self.nodes()[j],
    {
        if i < j {
            assert(self.order@[i] != self.order@[j]);
        } else {
            assert(self.order@[j] != self.order@[i]);
        }
    }

    /// Following the forward links from the head reaches the node at
    /// position `n` after `n` steps: the tail after one step less than
    /// there are elements, and nothing after as many steps as there are
    /// elements or more.
    pub proof fn lemma_follow_next(&self, n: nat)
        requires
            self.wf(),
        ensures
            self.follow_next(self.head_node(), n) == link_to(self.nodes(), n as int),
        decreases n,
    {
        if n > 0 {
            self.lemma_follow_next((n - 1) as nat);
            if n - 1 < self.order@.len() {
                assert(self.linked_at(n - 1));
            }
        }
    }

    /// Following the backward links from the tail reaches, after `n`
    /// steps, the node that stands `n` places before the last: the very
    /// node that the forward links reach from the head after the
    /// remaining steps.
    pub proof fn lemma_follow_front(&self, n: nat)
        requires
            self.wf(),
        ensures
            self.follow_front(self.tail_node(), n) == link_to(
                self.nodes(),
                self@.len() - 1 - n,
            ),
            n < self@.len() ==> self.follow_front(self.tail_node(), n) == self.follow_next(
                self.head_node(),
                (self@.len() - 1 - n) as nat,
            ),
        decreases n,
    {
        if n > 0 {
            self.lemma_follow_front((n - 1) as nat);
            if n - 1 < self.order@.len() {
                assert(self.linked_at(self.order@.len() - n));
            }
        }
        if n < self@.len() {
            self.lemma_follow_next((self@.len() - 1 - n) as nat);
        }
    }

    /// Creates an empty list.
    pub fn new() -> (list: Self)
        ensures
            list.wf(),
            list@ == Seq::<T>::empty(),
            list.spare_slots() == 0,
    {
        LinkedList {
            slots: Vec::new(),
            head: None,
            tail: None,
            free: None,
            len: 0,
            order: Ghost(Seq::empty()),
            spare: Ghost(Seq::empty()),
        }
    }

    /// The number of elements.
    pub fn len(&self) -> (n: usize)
        requires
            self.wf(),
        ensures
            n == self@.len(),
    {
        self.len
    }

    /// Whether the list holds no element.
    pub fn is_empty(&self) -> (b: bool)
        requires
            self.wf(),
        ensures
            b == (self@.len() == 0),
    {
        self.len == 0
    }

    /// `after` is `before` with another element stored in the node at
    /// position `i`, and is otherwise the same list.
    spec fn same_but_data(before: &Self, after: &Self, i: int) -> bool {
        let node = before.order@[i] as int;
        &&& after.slots@.len() == before.slots@.len()
        &&& forall|s: int|
            0 <= s < before.slots@.len() && s != node ==> after.slots@[s] == before.slots@[s]
        &&& after.slots@[node].data is Some
        &&& after.slots@[node].front == before.slots@[node].front
        &&& after.slots@[node].next == before.slots@[node].next
        &&& after.head == before.head
        &&& after.tail == before.tail
        &&& after.free == before.free
        &&& after.len == before.len
        &&& after.order@ == before.order@
        &&& after.spare@ == before.spare@
    }

    /// Replacing the element stored in a live node by another one changes
    /// that one element of the view and nothing else.
    proof fn lemma_replace_data(before: &Self, after: &Self, i: int)
        requires
            before.wf(),
            0 <= i < before.order@.len(),
        ensures
            Self::same_but_data(before, after, i) ==> after.wf() && after@ == before@.update(
                i,
                after.slots@[before.order@[i] as int].data->0,
            ),
    {
        if Self::same_but_data(before, after, i) {
            assert forall|k: int| 0 <= k < after.order@.len() implies #[trigger] after.linked_at(
                k,
            ) by {
                assert(before.linked_at(k));
            }
            assert forall|k: int| 0 <= k < after.spare@.len() implies #[trigger] after.spare_at(
                k,
            ) by {
                assert(before.spare_at(k));
                assert(before.linked_at(i));
            }
            assert forall|k: int| 0 <= k < after.order@.len() implies after@[k] == before@.update(
                i,
                after.slots@[before.order@[i] as int].data->0,
            )[k] by {
                assert(before.linked_at(k));
            }
            assert(after@ =~= before@.update(i, after.slots@[before.order@[i] as int].data->0));
        }
    }

    /// The first element, if there is one.
    pub fn peek_head(&self) -> (peeked: Option<&T>)
        requires
            self.wf(),
        ensures
            self@.len() == 0 ==> peeked is None,
            self@.len() > 0 ==> peeked == Some(&self@[0]),
    {
        if self.len == 0 {
            return None;
        }
        let head = self.head?;
        proof {
            assert(self.linked_at(0));
        }
        self.slots[head].data.as_ref()
    }

    /// The last element, if there is one.
    pub fn peek_tail(&self) -> (peeked: Option<&T>)
        requires
            self.wf(),
        ensures
            self@.len() == 0 ==> peeked is None,
            self@.len() > 0 ==> peeked == Some(&self@.last()),
    {
        if self.len == 0 {
            return None;
        }
        let tail = self.tail?;
        proof {
            assert(self.linked_at(self.order@.len() - 1));
        }
        self.slots[tail].data.as_ref()
    }

    /// The first element, if there is one, for writing. What the caller
    /// leaves behind the reference is the new first element.
    pub fn peek_head_mut(&mut self) -> (peeked: Option<&mut T>)
        requires
            old(self).wf(),
        ensures
            final(self).wf(),
            final(self).nodes() == old(self).nodes(),
            final(self).spare_slots() == old(self).spare_slots(),
            old(self)@.len() == 0 ==> peeked is None && final(self)@ == old(self)@,
            old(self)@.len() > 0 ==> {
                &&& peeked is Some
                &&& *peeked->0 == old(self)@[0]
                &&& final(self)@ == old(self)@.update(0, *final(peeked->0))
            },
    {
        if self.len == 0 {
            return None;
        }
        let head = self.head?;
        proof {
            assert(self.linked_at(0));
            Self::lemma_replace_data(old(self), final(self), 0);
        }
        self.slots[head].data.as_mut()
    }

    /// The last element, if there is one, for writing. What the caller
    /// leaves behind the reference is the new last element.
    pub fn peek_tail_mut(&mut self) -> (peeked: Option<&mut T>)
        requires
            old(self).wf(),
        ensures
            final(self).wf(),
            final(self).nodes() == old(self).nodes(),
            final(self).spare_slots() == old(self).spare_slots(),
            old(self)@.len() == 0 ==> peeked is None && final(self)@ == old(self)@,
            old(self)@.len() > 0 ==> {
                &&& peeked is Some
                &&& *peeked->0 == old(self)@.last()
                &&& final(self)@ == old(self)@.update(old(self)@.len() - 1, *final(peeked->0))
            },
    {
        if self.len == 0 {
            return None;
        }
        let tail = self.tail?;
        proof {
            assert(self.linked_at(self.order@.len() - 1));
            Self::lemma_replace_data(old(self), final(self), self.order@.len() - 1);
        }
        self.slots[tail].data.as_mut()
    }

    /// Stores `data` in a slot of its own, taken from the spare chain or,
    /// when that is empty, appended to the arena. No link of the list is
    /// touched.
    fn new_node(&mut self, data: T) -> (node: usize)
        requires
            old(self).wf(),
        ensures
            final(self).detached(node),
            final(self).slots@[node as int].data == Some(data),
            final(self).order@ == old(self).order@,
            final(self).elements() == old(self).elements(),
            final(self).spare@.len() == spare_after_push(old(self).spare@.len()),
    {
        let node = match self.free {
            Some(slot) => {
                proof {
                    assert(self.spare_at(0));
                }
                self.free = self.slots[slot].next;
                self.slots[slot].front = None;
                self.slots[slot].next = None;
                self.slots[slot].data = Some(data);
                proof {
                    self.spare@ = old(self).spare@.drop_first();
                }
                slot
            },
            None => {
                let slot = self.slots.len();
                self.slots.push(Slot { front: None, next: None, data: Some(data) });
                slot
            },
        };
        proof {
            assert forall|i: int| 0 <= i < self.order@.len() implies #[trigger] self.linked_at(
                i,
            ) by {
                assert(old(self).linked_at(i));
            }
            assert forall|i: int| 0 <= i < self.spare@.len() implies #[trigger] self.spare_at(
                i,
            ) by {
                if old(self).spare@.len() > 0 {
                    assert(old(self).spare_at(i + 1));
                }
            }
            assert forall|i: int| 0 <= i < self.order@.len() implies self.order@[i] != node by {
                assert(old(self).linked_at(i));
            }
            assert forall|i: int| 0 <= i < self.order@.len() implies self.elements()[i] == old(
                self,
            ).elements()[i] by {
                assert(old(self).linked_at(i));
            }
            assert(self.elements() =~= old(self).elements());
        }
        node
    }

    /// Secures room for one more node before any link is written: nothing
    /// is asked of the allocator while a spare slot is at hand, otherwise
    /// the arena tries to grow by one slot. The list itself stays as it is.
    fn reserve_node(&mut self) -> (reserved: Result<(), TryReserveError>)
        requires
            old(self).wf(),
        ensures
            final(self).wf(),
            final(self)@ == old(self)@,
            final(self).nodes() == old(self).nodes(),
            final(self).spare_slots() == old(self).spare_slots(),
            old(self).spare_slots() > 0 ==> reserved is Ok,
    {
        if self.free.is_some() {
            return Ok(());
        }
        let reserved = self.slots.try_reserve(1);
        proof {
            assert forall|i: int| 0 <= i < self.order@.len() implies #[trigger] self.linked_at(
                i,
            ) by {
                assert(old(self).linked_at(i));
            }
            assert(self.elements() =~= old(self).elements());
        }
        reserved
    }

    /// Splices the detached `node` in before the head.
    fn link_head(&mut self, node: usize)
        requires
            old(self).detached(node),
        ensures
            final(self).wf(),
            final(self).order@ == seq![node].add(old(self).order@),
            final(self).spare@ == old(self).spare@,
            final(self)@ == seq![old(self).slots@[node as int].data->0].add(old(self).elements()),
    {
        proof {
            assert(self.order@.len() < self.slots.len());
        }
        let new_size = self.len + 1;
        if self.len == 0 {
            self.head = Some(node);
            self.tail = Some(node);
        } else {
            if let Some(old_head) = self.head {
                proof {
                    assert(self.linked_at(0));
                }
                self.slots[node].next = Some(old_head);
                self.slots[old_head].front = Some(node);
                self.head = Some(node);
            }
        }
        self.len = new_size;
        proof {
            self.order@ = seq![node].add(old(self).order@);
            assert forall|i: int| 0 <= i < self.order@.len() implies #[trigger] self.linked_at(
                i,
            ) by {
                if i > 0 {
                    assert(old(self).linked_at(i - 1));
                }
            }
            assert forall|i: int| 0 <= i < self.spare@.len() implies #[trigger] self.spare_at(
                i,
            ) by {
                assert(old(self).spare_at(i));
            }
            assert forall|i: int| 1 <= i < self.order@.len() implies self@[i] == old(self).elements()[i - 1] by {
                assert(old(self).linked_at(i - 1));
            }
            assert(self@ =~= seq![old(self).slots@[node as int].data->0].add(
                old(self).elements(),
            ));
        }
    }

    /// Splices the detached `node` in after the tail.
    fn link_tail(&mut self, node: usize)
        requires
            old(self).detached(node),
        ensures
            final(self).wf(),
            final(self).order@ == old(self).order@.push(node),
            final(self).spare@ == old(self).spare@,
            final(self)@ == old(self).elements().push(old(self).slots@[node as int].data->0),
    {
        proof {
            assert(self.order@.len() < self.slots.len());
        }
        let new_size = self.len + 1;
        if self.len == 0 {
            self.head = Some(node);
            self.tail = Some(node);
        } else {
            if let Some(old_tail) = self.tail {
                proof {
                    assert(self.linked_at(self.order@.len() - 1));
                }
                self.slots[old_tail].next = Some(node);
                self.slots[node].front = Some(old_tail);
                self.tail = Some(node);
            }
        }
        self.len = new_size;
        proof {
            self.order@ = old(self).order@.push(node);
            assert forall|i: int| 0 <= i < self.order@.len() implies #[trigger] self.linked_at(
                i,
            ) by {
                if i < old(self).order@.len() {
                    assert(old(self).linked_at(i));
                }
            }
            assert forall|i: int| 0 <= i < self.spare@.len() implies #[trigger] self.spare_at(
                i,
            ) by {
                assert(old(self).spare_at(i));
            }
            assert forall|i: int| 0 <= i < old(self).order@.len() implies self@[i] == old(self).elements()[i] by {
                assert(old(self).linked_at(i));
            }
            assert(self@ =~= old(self).elements().push(old(self).slots@[node as int].data->0));
        }
    }

    /// Inserts `data` before the first element.
    pub fn push_head(&mut self, data: T)
        requires
            old(self).wf(),
        ensures
            final(self).wf(),
            final(self)@ == seq![data].add(old(self)@),
            final(self).nodes() == seq![final(self).nodes().first()].add(old(self).nodes()),
            final(self).spare_slots() == spare_after_push(old(self).spare_slots()),
    {
        let node = self.new_node(data);
        self.link_head(node);
        proof {
            assert(self.nodes() =~= seq![self.nodes().first()].add(old(self).nodes()));
        }
    }

    /// Inserts `data` after the last element.
    pub fn push_tail(&mut self, data: T)
        requires
            old(self).wf(),
        ensures
            final(self).wf(),
            final(self)@ == old(self)@.push(data),
            final(self).nodes() == old(self).nodes().push(final(self).nodes().last()),
            final(self).spare_slots() == spare_after_push(old(self).spare_slots()),
    {
        let node = self.new_node(data);
        self.link_tail(node);
        proof {
            assert(self.nodes() =~= old(self).nodes().push(self.nodes().last()));
        }
    }

    /// Inserts `data` before the first element if `reserved`, the outcome
    /// of securing room for its node, is a success; otherwise reports the
    /// allocation failure and leaves the list as it was.
    pub fn push_head_reserved(&mut self, data: T, reserved: Result<(), TryReserveError>) -> (pushed:
        Result<(), PushError>)
        requires
            old(self).wf(),
        ensures
            final(self).wf(),
            reserved is Ok ==> {
                &&& pushed is Ok
                &&& final(self)@ == seq![data].add(old(self)@)
                &&& final(self).nodes() == seq![final(self).nodes().first()].add(old(self).nodes())
                &&& final(self).spare_slots() == spare_after_push(old(self).spare_slots())
            },
            reserved is Err ==> {
                &&& pushed == Err::<(), PushError>(PushError::AllocationFailed)
                &&& final(self)@ == old(self)@
                &&& final(self).nodes() == old(self).nodes()
                &&& final(self).spare_slots() == old(self).spare_slots()
            },
    {
        match reserved {
            Ok(_) => {
                self.push_head(data);
                Ok(())
            },
            Err(_) => Err(PushError::AllocationFailed),
        }
    }

    /// Inserts `data` after the last element if `reserved`, the outcome of
    /// securing room for its node, is a success; otherwise reports the
    /// allocation failure and leaves the list as it was.
    pub fn push_tail_reserved(&mut self, data: T, reserved: Result<(), TryReserveError>) -> (pushed:
        Result<(), PushError>)
        requires
            old(self).wf(),
        ensures
            final(self).wf(),
            reserved is Ok ==> {
                &&& pushed is Ok
                &&& final(self)@ == old(self)@.push(data)
                &&& final(self).nodes() == old(self).nodes().push(final(self).nodes().last())
                &&& final(self).spare_slots() == spare_after_push(old(self).spare_slots())
            },
            reserved is Err ==> {
                &&& pushed == Err::<(), PushError>(PushError::AllocationFailed)
                &&& final(self)@ == old(self)@
                &&& final(self).nodes() == old(self).nodes()
                &&& final(self).spare_slots() == old(self).spare_slots()
            },
    {
        match reserved {
            Ok(_) => {
                self.push_tail(data);
                Ok(())
            },
            Err(_) => Err(PushError::AllocationFailed),
        }
    }

    /// Inserts `data` before the first element unless the arena cannot
    /// take one more node. Room is secured before any link is written, so
    /// a failed push leaves the list as it was; with a spare slot at hand
    /// the push cannot fail.
    pub fn push_head_result(&mut self, data: T) -> (pushed: Result<(), PushError>)
        requires
            old(self).wf(),
        ensures
            final(self).wf(),
            old(self).spare_slots() > 0 ==> pushed is Ok,
            pushed is Ok ==> {
                &&& final(self)@ == seq![data].add(old(self)@)
                &&& final(self).nodes() == seq![final(self).nodes().first()].add(old(self).nodes())
                &&& final(self).spare_slots() == spare_after_push(old(self).spare_slots())
            },
            pushed is Err ==> {
                &&& pushed == Err::<(), PushError>(PushError::AllocationFailed)
                &&& final(self)@ == old(self)@
                &&& final(self).nodes() == old(self).nodes()
                &&& final(self).spare_slots() == 0
            },
    {
        let reserved = self.reserve_node();
        self.push_head_reserved(data, reserved)
    }

    /// Inserts `data` after the last element unless the arena cannot take
    /// one more node. Room is secured before any link is written, so a
    /// failed push leaves the list as it was; with a spare slot at hand the
    /// push cannot fail.
    pub fn push_tail_result(&mut self, data: T) -> (pushed: Result<(), PushError>)
        requires
            old(self).wf(),
        ensures
            final(self).wf(),
            old(self).spare_slots() > 0 ==> pushed is Ok,
            pushed is Ok ==> {
                &&& final(self)@ == old(self)@.push(data)
                &&& final(self).nodes() == old(self).nodes().push(final(self).nodes().last())
                &&& final(self).spare_slots() == spare_after_push(old(self).spare_slots())
            },
            pushed is Err ==> {
                &&& pushed == Err::<(), PushError>(PushError::AllocationFailed)
                &&& final(self)@ == old(self)@
                &&& final(self).nodes() == old(self).nodes()
                &&& final(self).spare_slots() == 0
            },
    {
        let reserved = self.reserve_node();
        self.push_tail_reserved(data, reserved)
    }

    /// Removes the first element and returns it, or returns `None` and
    /// leaves the list empty when there is none. The slot that held the
    /// element joins the spare chain.
    pub fn pop_head(&mut self) -> (popped: Option<T>)
        requires
            old(self).wf(),
        ensures
            final(self).wf(),
            old(self)@.len() == 0 ==> {
                &&& popped is None
                &&& final(self)@ == old(self)@
                &&& final(self).nodes() == old(self).nodes()
                &&& final(self).spare_slots() == old(self).spare_slots()
            },
            old(self)@.len() > 0 ==> {
                &&& popped == Some(old(self)@[0])
                &&& final(self)@ == old(self)@.drop_first()
                &&& final(self).nodes() == old(self).nodes().drop_first()
                &&& final(self).spare_slots() == old(self).spare_slots() + 1
            },
    {
        if self.len == 0 {
            self.head = None;
            self.tail = None;
            return None;
        }
        let head = self.head?;
        proof {
            assert(self.linked_at(0));
        }
        if self.len == 1 {
            self.len = 0;
            self.head = None;
            self.tail = None;
            self.slots[head].front = None;
            self.slots[head].next = self.free;
            self.free = Some(head);
            let data = self.slots[head].data.take();
            proof {
                self.order@ = Seq::empty();
                self.spare@ = seq![head].add(old(self).spare@);
                assert forall|i: int| 0 <= i < self.spare@.len() implies #[trigger] self.spare_at(
                    i,
                ) by {
                    if i > 0 {
                        assert(old(self).spare_at(i - 1));
                    }
                }
                assert forall|i: int, j: int| 0 <= i < j < self.spare@.len() implies self.spare@[i]
                    != self.spare@[j] by {
                    assert(old(self).spare_at(j - 1));
                }
            }
            return data;
        }
        let head_next = self.slots[head].next?;
        proof {
            assert(self.linked_at(1));
        }
        self.slots[head_next].front = None;
        self.slots[head].front = None;
        self.slots[head].next = self.free;
        self.head = Some(head_next);
        self.len -= 1;
        self.free = Some(head);
        let data = self.slots[head].data.take();
        proof {
            self.order@ = old(self).order@.drop_first();
            self.spare@ = seq![head].add(old(self).spare@);
            assert forall|i: int| 0 <= i < self.order@.len() implies #[trigger] self.linked_at(
                i,
            ) by {
                assert(old(self).linked_at(i + 1));
            }
            assert forall|i: int| 0 <= i < self.spare@.len() implies #[trigger] self.spare_at(
                i,
            ) by {
                if i > 0 {
                    assert(old(self).spare_at(i - 1));
                }
            }
            assert forall|i: int, j: int| 0 <= i < j < self.spare@.len() implies self.spare@[i]
                != self.spare@[j] by {
                assert(old(self).spare_at(j - 1));
            }
            assert forall|i: int| 0 <= i < self.order@.len() implies self@[i] == old(self)@[i
                + 1] by {
                assert(old(self).linked_at(i + 1));
            }
            assert(self@ =~= old(self)@.drop_first());
        }
        data
    }

    /// Removes the last element and returns it, or returns `None` and
    /// leaves the list empty when there is none. The slot that held the
    /// element joins the spare chain.
    pub fn pop_tail(&mut self) -> (popped: Option<T>)
        requires
            old(self).wf(),
        ensures
            final(self).wf(),
            old(self)@.len() == 0 ==> {
                &&& popped is None
                &&& final(self)@ == old(self)@
                &&& final(self).nodes() == old(self).nodes()
                &&& final(self).spare_slots() == old(self).spare_slots()
            },
            old(self)@.len() > 0 ==> {
                &&& popped == Some(old(self)@.last())
                &&& final(self)@ == old(self)@.drop_last()
                &&& final(self).nodes() == old(self).nodes().drop_last()
                &&& final(self).spare_slots() == old(self).spare_slots() + 1
            },
    {
        if self.len == 0 {
            self.head = None;
            self.tail = None;
            return None;
        }
        let tail = self.tail?;
        let ghost last = self.order@.len() - 1;
        proof {
            assert(self.linked_at(last));
        }
        if self.len == 1 {
            self.len = 0;
            self.head = None;
            self.tail = None;
            self.slots[tail].front = None;
            self.slots[tail].next = self.free;
            self.free = Some(tail);
            let data = self.slots[tail].data.take();
            proof {
                self.order@ = Seq::empty();
                self.spare@ = seq![tail].add(old(self).spare@);
                assert forall|i: int| 0 <= i < self.spare@.len() implies #[trigger] self.spare_at(
                    i,
                ) by {
                    if i > 0 {
                        assert(old(self).spare_at(i - 1));
                    }
                }
                assert forall|i: int, j: int| 0 <= i < j < self.spare@.len() implies self.spare@[i]
                    != self.spare@[j] by {
                    assert(old(self).spare_at(j - 1));
                }
            }
            return data;
        }
        let tail_front = self.slots[tail].front?;
        proof {
            assert(self.linked_at(last - 1));
        }
        self.slots[tail_front].next = None;
        self.slots[tail].front = None;
        self.slots[tail].next = self.free;
        self.tail = Some(tail_front);
        self.len -= 1;
        self.free = Some(tail);
        let data = self.slots[tail].data.take();
        proof {
            self.order@ = old(self).order@.drop_last();
            self.spare@ = seq![tail].add(old(self).spare@);
            assert forall|i: int| 0 <= i < self.order@.len() implies #[trigger] self.linked_at(
                i,
            ) by {
                assert(old(self).linked_at(i));
            }
            assert forall|i: int| 0 <= i < self.spare@.len() implies #[trigger] self.spare_at(
                i,
            ) by {
                if i > 0 {
                    assert(old(self).spare_at(i - 1));
                }
            }
            assert forall|i: int, j: int| 0 <= i < j < self.spare@.len() implies self.spare@[i]
                != self.spare@[j] by {
                assert(old(self).spare_at(j - 1));
            }
            assert forall|i: int| 0 <= i < self.order@.len() implies self@[i] == old(self)@[i] by {
                assert(old(self).linked_at(i));
            }
            assert(self@ =~= old(self)@.drop_last());
        }
        data
    }
}

impl<T> View for LinkedList<T> {
    type V = Seq<T>;

    open spec fn view(&self) -> Seq<T> {
        self.elements()
    }
}

} // verus!
