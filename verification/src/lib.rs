//! A doubly-linked list whose nodes live in a slot arena.
//!
//! Links between nodes are slot indices, so every splice is a handful of
//! index writes. The list is read through its view, the sequence of its
//! elements from head to tail, and every operation states its effect on
//! that sequence.

pub mod list;
pub mod model;

pub use list::cursor::Cursor;
pub use list::cursor_mut::CursorMut;
pub use list::iter::IntoIter;
pub use list::iter::Iter;
pub use list::iter::IterMut;
pub use list::LinkedList;
pub use list::PushError;
