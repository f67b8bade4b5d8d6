//! The records of the to-do store.
use vstd::prelude::*;
use crate::datetime::DateTime;

verus! {

/// A stored to-do.
#[derive(Clone, Debug, PartialEq)]
pub struct Todo {
    pub id: i32,
    pub content: String,
    pub deadline: Option<DateTime>,
    pub scheduled: Option<DateTime>,
    /// The effort in minutes.
    pub effort: Option<i32>,
    pub room: String,
}

/// A to-do to be stored.
#[derive(Clone, Debug, PartialEq)]
pub struct NewTodo<'a> {
    pub content: &'a str,
    pub deadline: Option<DateTime>,
    pub scheduled: Option<DateTime>,
    pub effort: Option<i32>,
    pub room: &'a str,
}

/// The record of a new to-do of `room`.
pub fn new_todo<'a>(
    content: &'a str,
    deadline: Option<DateTime>,
    scheduled: Option<DateTime>,
    effort: Option<i32>,
    room: &'a str,
) -> (r: NewTodo<'a>)
    ensures
        r.content@ == content@,
        r.deadline == deadline,
        r.scheduled == scheduled,
        r.effort == effort,
        r.room@ == room@,
{
    NewTodo { content, deadline, scheduled, effort, room }
}

} // verus!
