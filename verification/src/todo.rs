//! The task store: an ordered list of tasks with a selection cursor,
//! the scratch text being typed, and the current input mode.

use vstd::prelude::*;

use crate::input::Mode;
use crate::task::{Task, TaskView};
use vstd::string::StringExecFns;

verus! {

/// The mathematical value of a store: the task sequence, the scratch
/// text, the input mode, and the selection index.
#[verifier::ext_equal]
pub struct StoreView {
    pub tasks: Seq<TaskView>,
    pub text: Seq<char>,
    pub mode: Mode,
    pub current: int,
}

/// The selection invariant: the cursor sits on a task whenever there is
/// one, and rests at zero when the store is empty.
pub open spec fn inv(s: StoreView) -> bool {
    &&& s.tasks.len() == 0 ==> s.current == 0
    &&& s.tasks.len() > 0 ==> 0 <= s.current < s.tasks.len()
}

/// Moving the selection up: one step toward the front, stopping at zero.
pub open spec fn spec_prev(current: int) -> int {
    if current > 0 {
        current - 1
    } else {
        current
    }
}

/// Moving the selection down: one step toward the back, stopping at the
/// last task.
pub open spec fn spec_next(len: int, current: int) -> int {
    if current + 1 < len {
        current + 1
    } else {
        current
    }
}

/// Flipping the completion flag of the selected task; the sequence is
/// unchanged when the cursor is out of range (in particular when empty).
pub open spec fn spec_toggle(tasks: Seq<TaskView>, current: int) -> Seq<TaskView> {
    if 0 <= current < tasks.len() {
        tasks.update(
            current,
            TaskView { text: tasks[current].text, completed: !tasks[current].completed },
        )
    } else {
        tasks
    }
}

/// Deleting the selected task and clamping the cursor to
/// `max(0, current - 1)`; a no-op on an empty store.
pub open spec fn spec_delete(tasks: Seq<TaskView>, current: int) -> (Seq<TaskView>, int) {
    if tasks.len() == 0 {
        (tasks, current)
    } else {
        (tasks.remove(current), if current > 0 { current - 1 } else { 0 })
    }
}

/// The store a fresh start or a first run begins with: no tasks, empty
/// scratch text, Normal mode, cursor at zero.
pub open spec fn empty_store() -> StoreView {
    StoreView { tasks: Seq::empty(), text: Seq::empty(), mode: Mode::Normal, current: 0 }
}

/// The in-memory task store.
#[derive(Debug)]
pub struct Todo {
    pub tasks: Vec<Task>,
    pub new_task_text: String,
    pub mode: Mode,
    pub current_task: usize,
}

impl View for Todo {
    type V = StoreView;

    open spec fn view(&self) -> StoreView {
        StoreView {
            tasks: self.tasks@.map_values(|t: Task| t@),
            text: self.new_task_text@,
            mode: self.mode,
            current: self.current_task as int,
        }
    }
}

impl Todo {
    pub open spec fn wf(&self) -> bool {
        inv(self@)
    }

    pub fn new() -> (t: Todo)
        ensures
            t@ == empty_store(),
            t.wf(),
    {
        let t = Todo {
            tasks: Vec::new(),
            new_task_text: String::new(),
            mode: Mode::Normal,
            current_task: 0,
        };
        proof {
            assert(t@ =~= empty_store());
        }
        t
    }

    /// Appends a new uncompleted task with the given text and selects it.
    pub fn insert(&mut self, text: String)
        requires
            old(self).wf(),
        ensures
            final(self)@.tasks == old(self)@.tasks.push(
                TaskView { text: text@, completed: false },
            ),
            final(self)@.tasks.len() == old(self)@.tasks.len() + 1,
            final(self)@.current == final(self)@.tasks.len() - 1,
            final(self)@.text == old(self)@.text,
            final(self)@.mode == old(self)@.mode,
            final(self).wf(),
    {
        self.tasks.push(Task::new(text));
        self.current_task = self.tasks.len() - 1;
        proof {
            assert(self@.tasks =~= old(self)@.tasks.push(
                TaskView { text: text@, completed: false },
            ));
        }
    }

    /// Flips the completion flag of the selected task; a no-op when the
    /// store is empty.
    pub fn toggle(&mut self)
        requires
            old(self).wf(),
        ensures
            final(self)@.tasks == spec_toggle(old(self)@.tasks, old(self)@.current),
            final(self)@.text == old(self)@.text,
            final(self)@.mode == old(self)@.mode,
            final(self)@.current == old(self)@.current,
            final(self).wf(),
    {
        if self.current_task < self.tasks.len() {
            let flipped = !self.tasks[self.current_task].completed;
            let text = self.tasks[self.current_task].text.clone();
            self.tasks[self.current_task] = Task { text, completed: flipped };
            proof {
                assert(self@.tasks =~= spec_toggle(old(self)@.tasks, old(self)@.current));
            }
        }
    }

    /// Removes the selected task and clamps the selection; a no-op when
    /// the store is empty. After a delete on a non-empty store the cursor
    /// is back in range, or the store is empty.
    pub fn delete(&mut self)
        requires
            old(self).wf(),
        ensures
            final(self)@.tasks == spec_delete(old(self)@.tasks, old(self)@.current).0,
            final(self)@.current == spec_delete(old(self)@.tasks, old(self)@.current).1,
            final(self)@.text == old(self)@.text,
            final(self)@.mode == old(self)@.mode,
            final(self).wf(),
            old(self)@.tasks.len() > 0 ==> final(self)@.tasks.len() == old(self)@.tasks.len()
                - 1,
            old(self)@.tasks.len() > 0 ==> (final(self)@.tasks.len() == 0
                || final(self)@.current < final(self)@.tasks.len()),
    {
        if self.tasks.len() == 0 {
            return ;
        }
        self.tasks.remove(self.current_task);
        self.current_task = if self.current_task > 0 {
            self.current_task - 1
        } else {
            0
        };
        proof {
            assert(self@.tasks =~= spec_delete(old(self)@.tasks, old(self)@.current).0);
        }
    }

    /// Moves the selection one task up, stopping at the first.
    pub fn prev(&mut self)
        requires
            old(self).wf(),
        ensures
            final(self)@.current == spec_prev(old(self)@.current),
            final(self)@.tasks == old(self)@.tasks,
            final(self)@.text == old(self)@.text,
            final(self)@.mode == old(self)@.mode,
            final(self).wf(),
    {
        if self.current_task > 0 {
            self.current_task = self.current_task - 1;
        }
    }

    /// Moves the selection one task down, stopping at the last.
    pub fn next(&mut self)
        requires
            old(self).wf(),
        ensures
            final(self)@.current == spec_next(old(self)@.tasks.len() as int, old(self)@.current),
            final(self)@.tasks == old(self)@.tasks,
            final(self)@.text == old(self)@.text,
            final(self)@.mode == old(self)@.mode,
            final(self).wf(),
    {
        if self.tasks.len() > 0 && self.current_task < self.tasks.len() - 1 {
            self.current_task = self.current_task + 1;
        }
    }
}

/// One display row of the task list: the text prefixed with its
/// completion glyph, the completion flag for colouring, and whether the
/// row is the selected one.
#[derive(Debug, Clone, PartialEq, Eq)]
pub struct TaskRow {
    pub label: String,
    pub completed: bool,
    pub selected: bool,
}

/// How a task reads in the list: `[x]` or `[ ]`, a space, then its text.
pub open spec fn row_label(t: TaskView) -> Seq<char> {
    (if t.completed {
        seq!['[', 'x', ']', ' ']
    } else {
        seq!['[', ' ', ']', ' ']
    }) + t.text
}

impl Todo {
    /// The display rows, one per task in order: a pure projection of the
    /// store with no side effects.
    pub fn list(&self) -> (rows: Vec<TaskRow>)
        ensures
            rows@.len() == self@.tasks.len(),
            forall|i: int|
                0 <= i < rows@.len() ==> {
                    &&& (#[trigger] rows@[i]).label@ == row_label(self@.tasks[i])
                    &&& rows@[i].completed == self@.tasks[i].completed
                    &&& rows@[i].selected == (i == self@.current)
                },
    {
        let mut rows: Vec<TaskRow> = Vec::new();
        let mut i: usize = 0;
        while i < self.tasks.len()
            invariant
                i <= self.tasks.len(),
                rows@.len() == i,
                forall|k: int|
                    0 <= k < i ==> {
                        &&& (#[trigger] rows@[k]).label@ == row_label(self@.tasks[k])
                        &&& rows@[k].completed == self@.tasks[k].completed
                        &&& rows@[k].selected == (k == self@.current)
                    },
            decreases self.tasks.len() - i,
        {
            let task = &self.tasks[i];
            let mut label = String::new();
            label.push('[');
            if task.completed {
                label.push('x');
            } else {
                label.push(' ');
            }
            label.push(']');
            label.push(' ');
            label.append(task.text.as_str());
            proof {
                assert(label@ =~= row_label(self@.tasks[i as int]));
            }
            let row = TaskRow {
                label,
                completed: task.completed,
                selected: i == self.current_task,
            };
            rows.push(row);
            i = i + 1;
        }
        rows
    }
}

/// The selection after a whole sequence of moves, `true` standing for a
/// move down (next) and `false` for a move up (prev).
pub open spec fn apply_nav(len: int, current: int, moves: Seq<bool>) -> int
    decreases moves.len(),
{
    if moves.len() == 0 {
        current
    } else {
        apply_nav(
            len,
            if moves[0] {
                spec_next(len, current)
            } else {
                spec_prev(current)
            },
            moves.drop_first(),
        )
    }
}

/// Law: under any sequence of prev/next moves the selection stays within
/// `[0, len - 1]` when the store is non-empty, and at zero when it is
/// empty.
pub proof fn lemma_nav_stays_in_bounds(len: int, current: int, moves: Seq<bool>)
    requires
        0 <= current,
        len == 0 ==> current == 0,
        len > 0 ==> current < len,
    ensures
        0 <= apply_nav(len, current, moves),
        len == 0 ==> apply_nav(len, current, moves) == 0,
        len > 0 ==> apply_nav(len, current, moves) < len,
    decreases moves.len(),
{
    if moves.len() > 0 {
        let moved = if moves[0] {
            spec_next(len, current)
        } else {
            spec_prev(current)
        };
        lemma_nav_stays_in_bounds(len, moved, moves.drop_first());
    }
}

/// Startup options: when a server address is configured the store is
/// synchronized with a remote peer instead of a local file.
pub struct Options {
    pub server_address: Option<String>,
}

impl Options {
    pub fn default() -> (o: Options)
        ensures
            o.server_address is None,
    {
        Options { server_address: None }
    }
}

/// The one recoverable error the persistence layer surfaces: the stored
/// data did not parse, or the medium could not be read or written.
#[derive(Debug, Clone, Copy, PartialEq, Eq, Structural)]
pub enum PersistenceError {
    Serialization,
    Io,
}

} // verus!
