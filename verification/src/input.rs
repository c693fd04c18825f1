//! The input-mode state machine: which mode the UI is in and what one
//! key press does to the store in each mode.

use vstd::prelude::*;

use crate::task::TaskView;
use crate::todo::{inv, spec_delete, spec_next, spec_prev, spec_toggle, StoreView, Todo};

verus! {

/// The UI's interaction state, governing how keys are interpreted.
#[derive(Debug, Clone, Copy, PartialEq, Eq, Structural)]
pub enum Mode {
    Normal,
    Insert,
    Delete,
}

/// One key press, as the state machine sees it: a printable character or
/// one of the special keys the bindings use.
#[derive(Debug, Clone, Copy, PartialEq, Eq, Structural)]
pub enum Key {
    Char(char),
    Enter,
    Backspace,
    Esc,
    Up,
    Down,
    Other,
}

/// What the caller must do after a key was handled: nothing, persist the
/// store (a task was added, toggled or deleted), or quit.
#[derive(Debug, Clone, Copy, PartialEq, Eq, Structural)]
pub enum Effect {
    Nothing,
    Persist,
    Quit,
}

/// One step of the machine in Insert mode: printable characters grow the
/// scratch text, Backspace shrinks it, Enter commits it as a new task,
/// Escape discards it.
pub open spec fn step_insert_mode(s: StoreView, k: Key) -> StoreView {
    match k {
        Key::Char(c) => StoreView { text: s.text.push(c), ..s },
        Key::Backspace => StoreView {
            text: if s.text.len() > 0 {
                s.text.drop_last()
            } else {
                s.text
            },
            ..s
        },
        Key::Enter => StoreView {
            tasks: s.tasks.push(TaskView { text: s.text, completed: false }),
            text: Seq::empty(),
            mode: Mode::Normal,
            current: s.tasks.len() as int,
        },
        Key::Esc => StoreView { text: Seq::empty(), mode: Mode::Normal, ..s },
        _ => s,
    }
}

/// One step in Delete mode: a second 'd' confirms the delete, Escape
/// cancels, and every other key is ignored.
pub open spec fn step_delete_mode(s: StoreView, k: Key) -> StoreView {
    match k {
        Key::Char(c) => if c == 'd' {
            StoreView {
                tasks: spec_delete(s.tasks, s.current).0,
                current: spec_delete(s.tasks, s.current).1,
                mode: Mode::Normal,
                ..s
            }
        } else {
            s
        },
        Key::Esc => StoreView { mode: Mode::Normal, ..s },
        _ => s,
    }
}

/// One step in Normal mode: 'i'/'o'/'a' start an insertion, 'k'/Up and
/// 'j'/Down move the selection, Space/Enter toggle, 'd' arms the delete
/// confirmation, 'q' quits, anything else is ignored.
pub open spec fn step_normal_mode(s: StoreView, k: Key) -> StoreView {
    match k {
        Key::Char(c) => if c == 'i' || c == 'o' || c == 'a' {
            StoreView { text: Seq::empty(), mode: Mode::Insert, ..s }
        } else if c == 'k' {
            StoreView { current: spec_prev(s.current), ..s }
        } else if c == 'j' {
            StoreView { current: spec_next(s.tasks.len() as int, s.current), ..s }
        } else if c == ' ' {
            StoreView { tasks: spec_toggle(s.tasks, s.current), ..s }
        } else if c == 'd' {
            StoreView { mode: Mode::Delete, ..s }
        } else {
            s
        },
        Key::Up => StoreView { current: spec_prev(s.current), ..s },
        Key::Down => StoreView { current: spec_next(s.tasks.len() as int, s.current), ..s },
        Key::Enter => StoreView { tasks: spec_toggle(s.tasks, s.current), ..s },
        _ => s,
    }
}

/// The whole transition function: what one key press does to the store.
pub open spec fn step(s: StoreView, k: Key) -> StoreView {
    match s.mode {
        Mode::Insert => step_insert_mode(s, k),
        Mode::Delete => step_delete_mode(s, k),
        Mode::Normal => step_normal_mode(s, k),
    }
}

/// Which keys mutate the task list (and so oblige the caller to persist),
/// and which one quits.
pub open spec fn step_effect(s: StoreView, k: Key) -> Effect {
    match s.mode {
        Mode::Insert => if k is Enter {
            Effect::Persist
        } else {
            Effect::Nothing
        },
        Mode::Delete => if k == Key::Char('d') && s.tasks.len() > 0 {
            Effect::Persist
        } else {
            Effect::Nothing
        },
        Mode::Normal => match k {
            Key::Char(c) => if c == ' ' {
                Effect::Persist
            } else if c == 'q' {
                Effect::Quit
            } else {
                Effect::Nothing
            },
            Key::Enter => Effect::Persist,
            _ => Effect::Nothing,
        },
    }
}

/// Dispatches one key press: mutates the store exactly as `step` says and
/// returns the effect the caller must carry out.
pub fn handle_key(todo: &mut Todo, k: Key) -> (e: Effect)
    requires
        old(todo).wf(),
    ensures
        final(todo)@ == step(old(todo)@, k),
        e == step_effect(old(todo)@, k),
        final(todo).wf(),
{
    match todo.mode {
        Mode::Insert => {
            let e = match k {
                Key::Char(c) => {
                    todo.new_task_text.push(c);
                    Effect::Nothing
                },
                Key::Backspace => {
                    todo.new_task_text.pop();
                    Effect::Nothing
                },
                Key::Enter => {
                    todo.mode = Mode::Normal;
                    let text = todo.new_task_text.clone();
                    todo.insert(text);
                    todo.new_task_text = String::new();
                    Effect::Persist
                },
                Key::Esc => {
                    todo.mode = Mode::Normal;
                    todo.new_task_text = String::new();
                    Effect::Nothing
                },
                _ => Effect::Nothing,
            };
            proof {
                assert(todo@ =~= step(old(todo)@, k));
            }
            e
        },
        Mode::Delete => {
            let e = match k {
                Key::Char(c) => {
                    if c == 'd' {
                        let nonempty = has_tasks(todo);
                        todo.delete();
                        todo.mode = Mode::Normal;
                        if nonempty {
                            Effect::Persist
                        } else {
                            Effect::Nothing
                        }
                    } else {
                        Effect::Nothing
                    }
                },
                Key::Esc => {
                    todo.mode = Mode::Normal;
                    Effect::Nothing
                },
                _ => Effect::Nothing,
            };
            proof {
                assert(todo@ =~= step(old(todo)@, k));
            }
            e
        },
        Mode::Normal => {
            let e = match k {
                Key::Char(c) => {
                    if c == 'i' || c == 'o' || c == 'a' {
                        todo.new_task_text = String::new();
                        todo.mode = Mode::Insert;
                        Effect::Nothing
                    } else if c == 'k' {
                        todo.prev();
                        Effect::Nothing
                    } else if c == 'j' {
                        todo.next();
                        Effect::Nothing
                    } else if c == ' ' {
                        todo.toggle();
                        Effect::Persist
                    } else if c == 'd' {
                        todo.mode = Mode::Delete;
                        Effect::Nothing
                    } else if c == 'q' {
                        Effect::Quit
                    } else {
                        Effect::Nothing
                    }
                },
                Key::Up => {
                    todo.prev();
                    Effect::Nothing
                },
                Key::Down => {
                    todo.next();
                    Effect::Nothing
                },
                Key::Enter => {
                    todo.toggle();
                    Effect::Persist
                },
                _ => Effect::Nothing,
            };
            proof {
                assert(todo@ =~= step(old(todo)@, k));
            }
            e
        },
    }
}

/// Whether the store holds at least one task.
fn has_tasks(todo: &Todo) -> (r: bool)
    ensures
        r == (todo@.tasks.len() > 0),
{
    todo.tasks.len() > 0
}

/// Law: in delete-confirmation mode, any key other than 'd' or Escape
/// changes nothing: the tasks, the selection and the scratch text are
/// kept and the mode stays Delete.
pub proof fn lemma_delete_mode_needs_confirmation(s: StoreView, k: Key)
    requires
        s.mode == Mode::Delete,
        k != Key::Char('d'),
        k != Key::Esc,
    ensures
        step(s, k) == s,
        step(s, k).mode == Mode::Delete,
{
}

/// Law: from Normal mode on a non-empty store, pressing 'd' twice removes
/// exactly one task and returns to Normal mode.
pub proof fn lemma_double_d_deletes_exactly_one(s: StoreView)
    requires
        inv(s),
        s.mode == Mode::Normal,
        s.tasks.len() > 0,
    ensures
        step(step(s, Key::Char('d')), Key::Char('d')).tasks.len() == s.tasks.len() - 1,
        step(step(s, Key::Char('d')), Key::Char('d')).mode == Mode::Normal,
{
}

} // verus!
