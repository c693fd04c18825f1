//! A single to-do item: its text and whether it is completed.

use vstd::prelude::*;

verus! {

/// The mathematical value of a task: its text as a character sequence
/// and its completion flag.
#[verifier::ext_equal]
pub struct TaskView {
    pub text: Seq<char>,
    pub completed: bool,
}

/// A single to-do entry. A new task starts uncompleted; the flag is
/// flipped in place by the store's toggle operation.
#[derive(Debug, Clone, PartialEq, Eq)]
pub struct Task {
    pub text: String,
    pub completed: bool,
}

impl View for Task {
    type V = TaskView;

    open spec fn view(&self) -> TaskView {
        TaskView { text: self.text@, completed: self.completed }
    }
}

impl Task {
    pub fn new(text: String) -> (t: Task)
        ensures
            t@.text == text@,
            !t@.completed,
    {
        Task { text, completed: false }
    }
}

} // verus!
