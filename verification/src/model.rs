//! The list as mathematics: a cursor's position is an optional index into
//! the sequence of elements, and navigation is arithmetic on it.

use vstd::prelude::*;

verus! {

/// Where a cursor lands when it moves one step towards the tail of a list
/// of `len` elements: on the next index, from the last index round to 0,
/// and nowhere on an empty list. A cursor without a position enters at 0.
pub open spec fn next_position(at: Option<usize>, len: nat) -> Option<usize> {
    if len == 0 {
        None
    } else {
        match at {
            Some(i) if i + 1 < len => Some((i + 1) as usize),
            _ => Some(0),
        }
    }
}

/// Where a cursor lands when it moves one step towards the head of a list
/// of `len` elements: on the previous index, from 0 round to the last
/// index, and nowhere on an empty list. A cursor without a position enters
/// at the last index.
pub open spec fn prev_position(at: Option<usize>, len: nat) -> Option<usize> {
    if len == 0 {
        None
    } else {
        match at {
            Some(i) if i > 0 => Some((i - 1) as usize),
            _ => Some((len - 1) as usize),
        }
    }
}

/// Where a cursor that stood on index `i` of `len` elements lands once
/// that element is removed: on the element before it, on the new first
/// element if it was the first, and nowhere if it was the only one.
pub open spec fn pop_position(i: usize, len: nat) -> Option<usize> {
    if len <= 1 {
        None
    } else if i == 0 {
        Some(0)
    } else {
        Some((i - 1) as usize)
    }
}

/// Whether `at` is a position that a cursor over `len` elements can hold:
/// an index below `len`, or none exactly when there is no element.
pub open spec fn valid_position(at: Option<usize>, len: nat) -> bool {
    match at {
        Some(i) => i < len,
        None => len == 0,
    }
}

/// The list that results from inserting `items` one by one, in their order,
/// after the last element of `list`.
pub open spec fn push_all_tail<T>(list: Seq<T>, items: Seq<T>) -> Seq<T>
    decreases items.len(),
{
    if items.len() == 0 {
        list
    } else {
        push_all_tail(list.push(items[0]), items.drop_first())
    }
}

/// The list that results from inserting `items` one by one, in their order,
/// before the first element of `list`.
pub open spec fn push_all_head<T>(list: Seq<T>, items: Seq<T>) -> Seq<T>
    decreases items.len(),
{
    if items.len() == 0 {
        list
    } else {
        push_all_head(seq![items[0]].add(list), items.drop_first())
    }
}

/// What comes out, in the order in which it comes out, when the first
/// element of `list` is removed again and again until none is left.
pub open spec fn pop_all_head<T>(list: Seq<T>) -> Seq<T>
    decreases list.len(),
{
    if list.len() == 0 {
        Seq::empty()
    } else {
        seq![list[0]].add(pop_all_head(list.drop_first()))
    }
}

/// What comes out, in the order in which it comes out, when the last
/// element of `list` is removed again and again until none is left.
pub open spec fn pop_all_tail<T>(list: Seq<T>) -> Seq<T>
    decreases list.len(),
{
    if list.len() == 0 {
        Seq::empty()
    } else {
        seq![list.last()].add(pop_all_tail(list.drop_last()))
    }
}

/// Pushing at the tail appends the items in their order.
pub proof fn lemma_push_all_tail<T>(list: Seq<T>, items: Seq<T>)
    ensures
        push_all_tail(list, items) == list + items,
    decreases items.len(),
{
    if items.len() == 0 {
        assert(list + items =~= list);
    } else {
        lemma_push_all_tail(list.push(items[0]), items.drop_first());
        assert(list.push(items[0]) + items.drop_first() =~= list + items);
    }
}

/// Pushing at the head prepends the items in reverse order.
pub proof fn lemma_push_all_head<T>(list: Seq<T>, items: Seq<T>)
    ensures
        push_all_head(list, items) == items.reverse() + list,
    decreases items.len(),
{
    if items.len() == 0 {
        assert(items.reverse() + list =~= list);
    } else {
        lemma_push_all_head(seq![items[0]].add(list), items.drop_first());
        assert(items.drop_first().reverse() + seq![items[0]].add(list) =~= items.reverse()
            + list);
    }
}

/// Popping at the head until the list is empty yields its elements from
/// head to tail.
pub proof fn lemma_pop_all_head<T>(list: Seq<T>)
    ensures
        pop_all_head(list) == list,
    decreases list.len(),
{
    if list.len() > 0 {
        lemma_pop_all_head(list.drop_first());
        assert(seq![list[0]].add(list.drop_first()) =~= list);
    }
}

/// Popping at the tail until the list is empty yields its elements from
/// tail to head.
pub proof fn lemma_pop_all_tail<T>(list: Seq<T>)
    ensures
        pop_all_tail(list) == list.reverse(),
    decreases list.len(),
{
    if list.len() > 0 {
        lemma_pop_all_tail(list.drop_last());
        assert(seq![list.last()].add(list.drop_last().reverse()) =~= list.reverse());
    } else {
        assert(list.reverse() =~= Seq::<T>::empty());
    }
}

/// First in, first out: what is pushed at one end of an empty list and
/// popped at the other comes out in the order in which it went in.
pub proof fn lemma_opposite_ends_keep_order<T>(items: Seq<T>)
    ensures
        pop_all_head(push_all_tail(Seq::empty(), items)) == items,
        pop_all_tail(push_all_head(Seq::empty(), items)) == items,
{
    let empty = Seq::<T>::empty();
    lemma_push_all_tail(empty, items);
    lemma_pop_all_head(empty + items);
    assert(empty + items =~= items);
    lemma_push_all_head(empty, items);
    lemma_pop_all_tail(items.reverse() + empty);
    assert(items.reverse() + empty =~= items.reverse());
    assert(items.reverse().reverse() =~= items);
}

/// Last in, first out: what is pushed at one end of an empty list and
/// popped at the same end comes out in the reverse of the order in which
/// it went in.
pub proof fn lemma_same_end_reverses_order<T>(items: Seq<T>)
    ensures
        pop_all_head(push_all_head(Seq::empty(), items)) == items.reverse(),
        pop_all_tail(push_all_tail(Seq::empty(), items)) == items.reverse(),
{
    let empty = Seq::<T>::empty();
    lemma_push_all_head(empty, items);
    lemma_pop_all_head(items.reverse() + empty);
    assert(items.reverse() + empty =~= items.reverse());
    lemma_push_all_tail(empty, items);
    lemma_pop_all_tail(empty + items);
    assert(empty + items =~= items);
}

/// Where a cursor that starts at `at` stands after `n` steps towards the
/// tail of a list of `len` elements.
pub open spec fn steps_next(at: Option<usize>, len: nat, n: nat) -> Option<usize>
    decreases n,
{
    if n == 0 {
        at
    } else {
        next_position(steps_next(at, len, (n - 1) as nat), len)
    }
}

/// Where a cursor that starts at `at` stands after `n` steps towards the
/// head of a list of `len` elements.
pub open spec fn steps_front(at: Option<usize>, len: nat, n: nat) -> Option<usize>
    decreases n,
{
    if n == 0 {
        at
    } else {
        prev_position(steps_front(at, len, (n - 1) as nat), len)
    }
}

/// Up to one full round, `n` steps towards the tail add `n` to the index
/// and take `len` off again once the tail has been passed.
pub proof fn lemma_steps_next(i: usize, len: nat, n: nat)
    requires
        i < len <= usize::MAX,
        n <= len,
    ensures
        steps_next(Some(i), len, n) == if i + n < len {
            Some((i + n) as usize)
        } else {
            Some((i + n - len) as usize)
        },
    decreases n,
{
    if n > 0 {
        lemma_steps_next(i, len, (n - 1) as nat);
    }
}

/// Up to one full round, `n` steps towards the head take `n` off the index
/// and add `len` again once the head has been passed.
pub proof fn lemma_steps_front(i: usize, len: nat, n: nat)
    requires
        i < len <= usize::MAX,
        n <= len,
    ensures
        steps_front(Some(i), len, n) == if n <= i {
            Some((i - n) as usize)
        } else {
            Some((i - n + len) as usize)
        },
    decreases n,
{
    if n > 0 {
        lemma_steps_front(i, len, (n - 1) as nat);
    }
}

/// A cursor that moves as many steps as the list has elements, all towards
/// the tail or all towards the head, is back where it started.
pub proof fn lemma_full_round_returns(at: Option<usize>, len: nat)
    requires
        valid_position(at, len),
        len <= usize::MAX,
    ensures
        steps_next(at, len, len) == at,
        steps_front(at, len, len) == at,
{
    match at {
        Some(i) => {
            lemma_steps_next(i, len, len);
            lemma_steps_front(i, len, len);
        },
        None => {},
    }
}

/// The elements that a cursor visits when it starts on the first element
/// and moves towards the tail until it has stood on as many elements as
/// the list holds.
pub open spec fn forward_walk<T>(list: Seq<T>) -> Seq<T> {
    Seq::new(
        list.len(),
        |k: int| list[steps_next(Some(0usize), list.len(), k as nat)->0 as int],
    )
}

/// The elements that a cursor visits when it starts on the last element
/// and moves towards the head until it has stood on as many elements as
/// the list holds.
pub open spec fn backward_walk<T>(list: Seq<T>) -> Seq<T> {
    Seq::new(
        list.len(),
        |k: int|
            list[steps_front(Some((list.len() - 1) as usize), list.len(), k as nat)->0 as int],
    )
}

/// The walk from the head visits the elements in their order and the walk
/// from the tail visits the same elements in the reverse order.
pub proof fn lemma_walks_mirror<T>(list: Seq<T>)
    requires
        list.len() <= usize::MAX,
    ensures
        forward_walk(list) == list,
        backward_walk(list) == list.reverse(),
        backward_walk(list) == forward_walk(list).reverse(),
{
    let len = list.len();
    assert forall|k: int| 0 <= k < len implies forward_walk(list)[k] == list[k] by {
        lemma_steps_next(0usize, len, k as nat);
    }
    assert(forward_walk(list) =~= list);
    assert forall|k: int| 0 <= k < len implies backward_walk(list)[k] == list.reverse()[k] by {
        lemma_steps_front((len - 1) as usize, len, k as nat);
    }
    assert(backward_walk(list) =~= list.reverse());
}

/// What a traversal hands out, in the order in which it hands it out,
/// when `remaining` is still to come: each step hands out the first of
/// them and goes on with the rest, as popping at the head does.
pub open spec fn traversal<T>(remaining: Seq<T>) -> Seq<T> {
    pop_all_head(remaining)
}

/// A full traversal hands out every element once, in list order, so it
/// hands out as many elements as the list holds.
pub proof fn lemma_traversal_is_list<T>(list: Seq<T>)
    ensures
        traversal(list) == list,
        traversal(list).len() == list.len(),
{
    lemma_pop_all_head(list);
}

} // verus!
