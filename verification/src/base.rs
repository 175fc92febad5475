//! Task records and their status.

use vstd::prelude::*;

verus! {

/// The three states a task can be in. No other state is representable.
#[derive(Clone, Copy, Debug, PartialEq, Eq, Hash, Structural)]
pub enum Status {
    Todo,
    InProgress,
    Completed,
}

/// Mathematical image of a task record: both text fields as character
/// sequences, plus the status.
#[verifier::ext_equal]
pub ghost struct TaskView {
    pub todo: Seq<char>,
    pub info: Seq<char>,
    pub status: Status,
}

/// A single task record: a short label, a free-form description, and a status.
#[derive(Debug)]
pub struct TodoItem {
    pub todo: String,
    pub info: String,
    pub status: Status,
}

impl View for TodoItem {
    type V = TaskView;

    open spec fn view(&self) -> TaskView {
        TaskView { todo: self.todo@, info: self.info@, status: self.status }
    }
}

impl TodoItem {
    /// Builds a record from borrowed text.
    pub fn new(status: Status, todo: &str, info: &str) -> (r: Self)
        ensures
            r@ == (TaskView { todo: todo@, info: info@, status }),
    {
        Self { status, todo: todo.to_owned(), info: info.to_owned() }
    }
}

/// One step of the status cycle: `Todo -> InProgress -> Completed -> Todo`.
pub open spec fn cycled(s: Status) -> Status {
    match s {
        Status::Todo => Status::InProgress,
        Status::InProgress => Status::Completed,
        Status::Completed => Status::Todo,
    }
}

/// Runtime counterpart of [`cycled`].
pub fn cycle_status(s: Status) -> (r: Status)
    ensures
        r == cycled(s),
{
    match s {
        Status::Todo => Status::InProgress,
        Status::InProgress => Status::Completed,
        Status::Completed => Status::Todo,
    }
}

/// The status cycle has period three: cycling any status three times
/// restores it.
pub proof fn lemma_status_cycle_period_three(s: Status)
    ensures
        cycled(cycled(cycled(s))) == s,
{
}

} // verus!
