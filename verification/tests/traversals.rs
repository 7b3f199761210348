use linked_list::LinkedList;
use std::cell::Cell;
use std::rc::Rc;

struct Counted {
    drops: Rc<Cell<usize>>,
}

impl Drop for Counted {
    fn drop(&mut self) {
        self.drops.set(self.drops.get() + 1);
    }
}

fn counted(drops: &Rc<Cell<usize>>) -> Counted {
    Counted { drops: Rc::clone(drops) }
}

#[test]
fn iter_visits_every_element_in_order() {
    let mut list: LinkedList<i32> = LinkedList::new();
    for x in [5, 6, 7, 8] {
        list.push_tail(x);
    }
    let mut iter = list.iter();
    assert_eq!(iter.next(), Some(&5));
    assert_eq!(iter.next(), Some(&6));
    assert_eq!(iter.next(), Some(&7));
    assert_eq!(iter.next(), Some(&8));
    assert_eq!(iter.next(), None);
    assert_eq!(iter.next(), None);
    assert_eq!(list.len(), 4);
}

#[test]
fn iter_on_empty_list_ends_at_once() {
    let list: LinkedList<i32> = LinkedList::new();
    let mut iter = list.iter();
    assert_eq!(iter.next(), None);
}

#[test]
fn traversal_counts_as_many_as_len() {
    let mut list: LinkedList<i32> = LinkedList::new();
    for n in 0..20 {
        let mut count = 0usize;
        let mut iter = list.iter();
        while iter.next().is_some() {
            count += 1;
        }
        assert_eq!(count, n);
        assert_eq!(count, list.len());
        if n % 3 == 0 {
            list.push_head(n as i32);
        } else {
            list.push_tail(n as i32);
        }
    }
}

#[test]
fn iter_references_outlive_the_iterator() {
    let mut list: LinkedList<String> = LinkedList::new();
    list.push_tail(String::from("a"));
    list.push_tail(String::from("b"));
    let first;
    let second;
    {
        let mut iter = list.iter();
        first = iter.next().unwrap();
        second = iter.next().unwrap();
    }
    assert_eq!(first, "a");
    assert_eq!(second, "b");
}

#[test]
fn iter_mut_writes_elements_in_place() {
    let mut list: LinkedList<i32> = LinkedList::new();
    for x in [1, 2, 3] {
        list.push_tail(x);
    }
    {
        let mut iter = list.iter_mut();
        while let Some(x) = iter.next() {
            *x *= 10;
        }
        assert!(iter.next().is_none());
    }
    assert_eq!(list.len(), 3);
    assert_eq!(list.pop_head(), Some(10));
    assert_eq!(list.pop_head(), Some(20));
    assert_eq!(list.pop_head(), Some(30));
    assert_eq!(list.pop_head(), None);
}

#[test]
fn into_iter_hands_out_elements_head_first() {
    let mut list: LinkedList<String> = LinkedList::new();
    list.push_tail(String::from("x"));
    list.push_tail(String::from("y"));
    list.push_head(String::from("w"));
    let mut iter = list.into_iter();
    assert_eq!(iter.next(), Some(String::from("w")));
    assert_eq!(iter.next(), Some(String::from("x")));
    assert_eq!(iter.next(), Some(String::from("y")));
    assert_eq!(iter.next(), None);
    assert_eq!(iter.next(), None);
}

#[test]
fn dropping_list_destroys_each_element_once() {
    let drops = Rc::new(Cell::new(0usize));
    {
        let mut list: LinkedList<Counted> = LinkedList::new();
        for _ in 0..5 {
            list.push_tail(counted(&drops));
        }
        list.push_head(counted(&drops));
        assert_eq!(drops.get(), 0);
    }
    assert_eq!(drops.get(), 6);
}

#[test]
fn popped_elements_are_destroyed_by_their_new_owner_only() {
    let drops = Rc::new(Cell::new(0usize));
    {
        let mut list: LinkedList<Counted> = LinkedList::new();
        for _ in 0..4 {
            list.push_tail(counted(&drops));
        }
        let popped = list.pop_head();
        assert!(popped.is_some());
        assert_eq!(drops.get(), 0);
        drop(popped);
        assert_eq!(drops.get(), 1);
        {
            let mut cursor = list.cursor_mut_head();
            cursor.move_next();
            drop(cursor.pop());
        }
        assert_eq!(drops.get(), 2);
        list.push_tail(counted(&drops));
        assert_eq!(drops.get(), 2);
    }
    assert_eq!(drops.get(), 5);
}

#[test]
fn dropping_partly_consumed_into_iter_destroys_the_rest() {
    let drops = Rc::new(Cell::new(0usize));
    {
        let mut list: LinkedList<Counted> = LinkedList::new();
        for _ in 0..5 {
            list.push_tail(counted(&drops));
        }
        let mut iter = list.into_iter();
        drop(iter.next());
        drop(iter.next());
        assert_eq!(drops.get(), 2);
    }
    assert_eq!(drops.get(), 5);
}

fn transferable<T: Send>() -> bool {
    true
}

fn shareable<T: Sync>() -> bool {
    true
}

#[test]
fn list_is_transferable_when_its_elements_are() {
    assert!(transferable::<LinkedList<i32>>());
    assert!(shareable::<LinkedList<i32>>());
    assert!(transferable::<linked_list::IntoIter<String>>());
    assert!(shareable::<linked_list::IntoIter<String>>());
}
