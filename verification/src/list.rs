//! A cursor-addressable ordered list of task records.

use vstd::prelude::*;

use crate::base::{Status, TaskView, TodoItem};

verus! {

/// Mathematical image of a list: the record images in order, and the cursor
/// as an unbounded integer.
#[verifier::ext_equal]
pub ghost struct ListAbs {
    pub items: Seq<TaskView>,
    pub cursor: Option<int>,
}

impl ListAbs {
    /// The cursor, when present, addresses an item. An empty list therefore
    /// has no cursor.
    pub open spec fn wf(self) -> bool {
        match self.cursor {
            Some(i) => 0 <= i < self.items.len(),
            None => true,
        }
    }
}

/// Cursor after one step forward: first item when nothing was selected,
/// otherwise one further, clamped to the end. Unchanged on an empty list.
pub open spec fn next_cursor(len: int, c: Option<int>) -> Option<int> {
    if len == 0 {
        c
    } else {
        match c {
            None => Some(0),
            Some(i) => Some(if i + 1 < len { i + 1 } else { len - 1 }),
        }
    }
}

/// Cursor after one step back: last item when nothing was selected,
/// otherwise one back, clamped to the start. Unchanged on an empty list.
pub open spec fn prev_cursor(len: int, c: Option<int>) -> Option<int> {
    if len == 0 {
        c
    } else {
        match c {
            None => Some(len - 1),
            Some(i) => Some(if i > 0 { i - 1 } else { 0 }),
        }
    }
}

/// Cursor on the first item, or nothing when the list is empty.
pub open spec fn first_cursor(len: int) -> Option<int> {
    if len == 0 {
        None
    } else {
        Some(0)
    }
}

/// Cursor on the last item, or nothing when the list is empty.
pub open spec fn last_cursor(len: int) -> Option<int> {
    if len == 0 {
        None
    } else {
        Some(len - 1)
    }
}

/// The list with the status of the selected item replaced; the list itself
/// when nothing is selected.
pub open spec fn with_selected_status(l: ListAbs, st: Status) -> ListAbs {
    match l.cursor {
        None => l,
        Some(i) => ListAbs {
            items: l.items.update(i, TaskView { status: st, ..l.items[i] }),
            cursor: l.cursor,
        },
    }
}

/// Image of a vector of records.
pub open spec fn views_of(items: Seq<TodoItem>) -> Seq<TaskView> {
    items.map_values(|t: TodoItem| t@)
}

/// An ordered collection of task records with an optional cursor into it.
#[derive(Debug)]
pub struct TodoList {
    pub items: Vec<TodoItem>,
    pub cursor: Option<usize>,
}

impl View for TodoList {
    type V = ListAbs;

    open spec fn view(&self) -> ListAbs {
        ListAbs {
            items: views_of(self.items@),
            cursor: match self.cursor {
                Some(i) => Some(i as int),
                None => None,
            },
        }
    }
}

impl TodoList {
    /// The cursor invariant at runtime.
    pub open spec fn wf(&self) -> bool {
        self@.wf()
    }

    /// A list over the given records, with nothing selected.
    pub fn from_items(items: Vec<TodoItem>) -> (r: Self)
        ensures
            r.wf(),
            r@ == (ListAbs { items: views_of(items@), cursor: None }),
    {
        TodoList { items, cursor: None }
    }

    /// Read accessor for the cursor; never mutates.
    pub fn selected(&self) -> (r: Option<usize>)
        ensures
            r == self.cursor,
    {
        self.cursor
    }

    /// Clears the selection.
    pub fn select_none(&mut self)
        ensures
            final(self).wf(),
            final(self)@ == (ListAbs { items: old(self)@.items, cursor: None }),
    {
        self.cursor = None;
    }

    /// Moves the selection one step forward, clamped to the last item.
    pub fn select_next(&mut self)
        requires
            old(self).wf(),
        ensures
            final(self).wf(),
            final(self)@ == (ListAbs {
                items: old(self)@.items,
                cursor: next_cursor(old(self)@.items.len() as int, old(self)@.cursor),
            }),
    {
        let len = self.items.len();
        if len > 0 {
            match self.cursor {
                None => {
                    self.cursor = Some(0);
                },
                Some(i) => {
                    if i + 1 < len {
                        self.cursor = Some(i + 1);
                    } else {
                        self.cursor = Some(len - 1);
                    }
                },
            }
        }
    }

    /// Moves the selection one step back, clamped to the first item.
    pub fn select_previous(&mut self)
        requires
            old(self).wf(),
        ensures
            final(self).wf(),
            final(self)@ == (ListAbs {
                items: old(self)@.items,
                cursor: prev_cursor(old(self)@.items.len() as int, old(self)@.cursor),
            }),
    {
        let len = self.items.len();
        if len > 0 {
            match self.cursor {
                None => {
                    self.cursor = Some(len - 1);
                },
                Some(i) => {
                    if i > 0 {
                        self.cursor = Some(i - 1);
                    } else {
                        self.cursor = Some(0);
                    }
                },
            }
        }
    }

    /// Selects the first item; clears the selection on an empty list.
    pub fn select_first(&mut self)
        ensures
            final(self).wf(),
            final(self)@ == (ListAbs {
                items: old(self)@.items,
                cursor: first_cursor(old(self)@.items.len() as int),
            }),
    {
        if self.items.len() > 0 {
            self.cursor = Some(0);
        } else {
            self.cursor = None;
        }
    }

    /// Selects the last item; clears the selection on an empty list.
    pub fn select_last(&mut self)
        ensures
            final(self).wf(),
            final(self)@ == (ListAbs {
                items: old(self)@.items,
                cursor: last_cursor(old(self)@.items.len() as int),
            }),
    {
        let len = self.items.len();
        if len > 0 {
            self.cursor = Some(len - 1);
        } else {
            self.cursor = None;
        }
    }

    /// Applies a status to the item under the cursor; does nothing when
    /// nothing is selected.
    pub fn set_status(&mut self, status: Status)
        requires
            old(self).wf(),
        ensures
            final(self).wf(),
            final(self)@ == with_selected_status(old(self)@, status),
    {
        match self.cursor {
            None => {},
            Some(i) => {
                let mut it = self.items.remove(i);
                it.status = status;
                self.items.insert(i, it);
                proof {
                    assert(self.items@ =~= old(self).items@.update(
                        i as int,
                        TodoItem {
                            todo: old(self).items@[i as int].todo,
                            info: old(self).items@[i as int].info,
                            status,
                        },
                    ));
                    assert(self@.items =~= with_selected_status(old(self)@, status).items);
                }
            },
        }
    }
}

/// Stepping forward never leaves the list: from any well-formed cursor the
/// new cursor addresses an item, and stepping forward at the last item stays
/// at the last item.
pub proof fn lemma_next_cursor_in_bounds(len: int, c: Option<int>)
    requires
        len >= 0,
        match c {
            Some(i) => 0 <= i < len,
            None => true,
        },
    ensures
        len > 0 ==> match next_cursor(len, c) {
            Some(i) => 0 <= i < len,
            None => false,
        },
        next_cursor(len, Some(len - 1)) == Some(len - 1) || len == 0,
{
}

/// Stepping forward from no selection lands on the first item, and stepping
/// back right after stays there: the position reached by the first step is
/// restored.
pub proof fn lemma_next_then_prev_from_none(len: int)
    requires
        len >= 1,
    ensures
        next_cursor(len, None) == Some(0int),
        prev_cursor(len, next_cursor(len, None)) == next_cursor(len, None),
{
}

} // verus!
