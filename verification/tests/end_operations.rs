use linked_list::{LinkedList, PushError};
use std::collections::TryReserveError;

fn collect(list: &LinkedList<i32>) -> Vec<i32> {
    let mut out = Vec::new();
    let mut iter = list.iter();
    while let Some(x) = iter.next() {
        out.push(*x);
    }
    out
}

fn failed_reservation() -> Result<(), TryReserveError> {
    Vec::<u64>::new().try_reserve(usize::MAX)
}

#[test]
fn new_list_is_empty() {
    let list: LinkedList<i32> = LinkedList::new();
    assert_eq!(list.len(), 0);
    assert!(list.is_empty());
    assert_eq!(list.peek_head(), None);
    assert_eq!(list.peek_tail(), None);
}

#[test]
fn push_tail_then_pop_both_ends() {
    let mut list: LinkedList<i32> = LinkedList::new();
    list.push_tail(1);
    list.push_tail(2);
    list.push_tail(3);
    assert_eq!(list.pop_head(), Some(1));
    assert_eq!(list.len(), 2);
    assert_eq!(list.pop_tail(), Some(3));
    assert_eq!(list.len(), 1);
    assert_eq!(list.peek_head(), Some(&2));
}

#[test]
fn push_head_puts_element_first() {
    let mut list: LinkedList<i32> = LinkedList::new();
    list.push_head(1);
    list.push_head(2);
    list.push_head(3);
    assert_eq!(collect(&list), vec![3, 2, 1]);
    assert_eq!(list.peek_head(), Some(&3));
    assert_eq!(list.peek_tail(), Some(&1));
    assert_eq!(list.len(), 3);
}

#[test]
fn push_tail_puts_element_last() {
    let mut list: LinkedList<i32> = LinkedList::new();
    list.push_tail(1);
    list.push_tail(2);
    list.push_tail(3);
    assert_eq!(collect(&list), vec![1, 2, 3]);
    assert_eq!(list.peek_head(), Some(&1));
    assert_eq!(list.peek_tail(), Some(&3));
}

#[test]
fn single_element_is_head_and_tail() {
    let mut list: LinkedList<i32> = LinkedList::new();
    list.push_head(7);
    assert_eq!(list.len(), 1);
    assert_eq!(list.peek_head(), Some(&7));
    assert_eq!(list.peek_tail(), Some(&7));
    assert_eq!(list.pop_tail(), Some(7));
    assert!(list.is_empty());
    assert_eq!(list.peek_head(), None);
    assert_eq!(list.peek_tail(), None);
    list.push_tail(8);
    assert_eq!(list.pop_head(), Some(8));
    assert!(list.is_empty());
}

#[test]
fn pop_on_empty_list_gives_nothing() {
    let mut list: LinkedList<i32> = LinkedList::new();
    assert_eq!(list.pop_head(), None);
    assert_eq!(list.pop_tail(), None);
    assert_eq!(list.len(), 0);
    list.push_tail(1);
    assert_eq!(list.pop_head(), Some(1));
    assert_eq!(list.pop_head(), None);
    assert_eq!(list.pop_tail(), None);
    assert!(list.is_empty());
}

#[test]
fn opposite_ends_are_first_in_first_out() {
    let items = vec![4, 8, 15, 16, 23, 42];
    let mut list: LinkedList<i32> = LinkedList::new();
    for x in items.iter() {
        list.push_tail(*x);
    }
    let mut out = Vec::new();
    for _ in 0..items.len() {
        out.push(list.pop_head().unwrap());
    }
    assert_eq!(out, items);
    assert!(list.is_empty());

    for x in items.iter() {
        list.push_head(*x);
    }
    let mut out = Vec::new();
    for _ in 0..items.len() {
        out.push(list.pop_tail().unwrap());
    }
    assert_eq!(out, items);
    assert!(list.is_empty());
}

#[test]
fn same_end_is_last_in_first_out() {
    let items = vec![4, 8, 15, 16, 23, 42];
    let reversed = vec![42, 23, 16, 15, 8, 4];
    let mut list: LinkedList<i32> = LinkedList::new();
    for x in items.iter() {
        list.push_head(*x);
    }
    let mut out = Vec::new();
    while let Some(x) = list.pop_head() {
        out.push(x);
    }
    assert_eq!(out, reversed);

    for x in items.iter() {
        list.push_tail(*x);
    }
    let mut out = Vec::new();
    while let Some(x) = list.pop_tail() {
        out.push(x);
    }
    assert_eq!(out, reversed);
}

#[test]
fn length_follows_every_push_and_pop() {
    let mut list: LinkedList<i32> = LinkedList::new();
    let mut expected = 0usize;
    for round in 0..5 {
        for x in 0..(round + 3) {
            if x % 2 == 0 {
                list.push_head(x);
            } else {
                list.push_tail(x);
            }
            expected += 1;
            assert_eq!(list.len(), expected);
            assert!(!list.is_empty());
            assert!(list.peek_head().is_some());
            assert!(list.peek_tail().is_some());
        }
        for x in 0..(round + 2) {
            let popped = if x % 2 == 0 { list.pop_tail() } else { list.pop_head() };
            assert!(popped.is_some());
            expected -= 1;
            assert_eq!(list.len(), expected);
            assert_eq!(list.is_empty(), expected == 0);
            assert_eq!(list.peek_head().is_none(), expected == 0);
            assert_eq!(list.peek_tail().is_none(), expected == 0);
            assert_eq!(collect(&list).len(), expected);
        }
    }
}

#[test]
fn peek_mut_writes_boundary_elements() {
    let mut list: LinkedList<i32> = LinkedList::new();
    assert!(list.peek_head_mut().is_none());
    assert!(list.peek_tail_mut().is_none());
    list.push_tail(1);
    list.push_tail(2);
    list.push_tail(3);
    *list.peek_head_mut().unwrap() = 10;
    *list.peek_tail_mut().unwrap() += 30;
    assert_eq!(collect(&list), vec![10, 2, 33]);
    assert_eq!(list.len(), 3);
}

#[test]
fn freed_slots_are_used_again() {
    let mut list: LinkedList<i32> = LinkedList::new();
    for x in 0..4 {
        list.push_tail(x);
    }
    assert_eq!(list.pop_head(), Some(0));
    assert_eq!(list.pop_tail(), Some(3));
    list.push_head(7);
    list.push_tail(9);
    list.push_tail(11);
    assert_eq!(collect(&list), vec![7, 1, 2, 9, 11]);
    assert_eq!(list.pop_head(), Some(7));
    assert_eq!(list.pop_head(), Some(1));
    assert_eq!(list.pop_head(), Some(2));
    assert_eq!(list.pop_head(), Some(9));
    assert_eq!(list.pop_head(), Some(11));
    assert_eq!(list.pop_head(), None);
}

#[test]
fn fallible_push_succeeds_with_room() {
    let mut list: LinkedList<i32> = LinkedList::new();
    assert_eq!(list.push_tail_result(2), Ok(()));
    assert_eq!(list.push_head_result(1), Ok(()));
    assert_eq!(list.push_tail_result(3), Ok(()));
    assert_eq!(collect(&list), vec![1, 2, 3]);
    assert_eq!(list.pop_head(), Some(1));
    assert_eq!(list.push_head_result(0), Ok(()));
    assert_eq!(collect(&list), vec![0, 2, 3]);
}

#[test]
fn failed_reservation_leaves_list_untouched() {
    let mut list: LinkedList<i32> = LinkedList::new();
    list.push_tail(1);
    list.push_tail(2);
    assert_eq!(
        list.push_head_reserved(0, failed_reservation()),
        Err(PushError::AllocationFailed)
    );
    assert_eq!(collect(&list), vec![1, 2]);
    assert_eq!(list.len(), 2);
    assert_eq!(
        list.push_tail_reserved(3, failed_reservation()),
        Err(PushError::AllocationFailed)
    );
    assert_eq!(collect(&list), vec![1, 2]);
    assert_eq!(list.peek_head(), Some(&1));
    assert_eq!(list.peek_tail(), Some(&2));

    let mut empty: LinkedList<i32> = LinkedList::new();
    assert_eq!(
        empty.push_head_reserved(5, failed_reservation()),
        Err(PushError::AllocationFailed)
    );
    assert!(empty.is_empty());
    assert_eq!(empty.peek_head(), None);
}

#[test]
fn successful_reservation_pushes() {
    let mut list: LinkedList<i32> = LinkedList::new();
    assert_eq!(list.push_head_reserved(2, Ok(())), Ok(()));
    assert_eq!(list.push_tail_reserved(3, Ok(())), Ok(()));
    assert_eq!(list.push_head_reserved(1, Ok(())), Ok(()));
    assert_eq!(collect(&list), vec![1, 2, 3]);
}

#[test]
fn allocation_failure_has_a_message() {
    assert_eq!(PushError::AllocationFailed.message(), "Allocation Failed");
    let mut list: LinkedList<i32> = LinkedList::new();
    let failed = list.push_tail_reserved(1, failed_reservation());
    assert_eq!(failed.unwrap_err().message(), "Allocation Failed");
}
