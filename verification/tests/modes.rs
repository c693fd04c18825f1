use todot::input::{handle_key, Effect, Key, Mode};
use todot::todo::Todo;

fn feed(t: &mut Todo, keys: &[Key]) -> Vec<Effect> {
    let mut effects = Vec::new();
    for k in keys {
        effects.push(handle_key(t, *k));
    }
    effects
}

#[test]
fn insert_mode_commits_text_on_enter() {
    let mut t = Todo::new();
    let effects = feed(
        &mut t,
        &[
            Key::Char('i'),
            Key::Char('a'),
            Key::Char('b'),
            Key::Char('c'),
            Key::Enter,
        ],
    );
    assert_eq!(t.mode, Mode::Normal);
    assert_eq!(t.tasks.len(), 1);
    assert_eq!(t.tasks[0].text, "abc");
    assert!(!t.tasks[0].completed);
    assert_eq!(t.new_task_text, "");
    assert_eq!(effects[4], Effect::Persist);
}

#[test]
fn insert_mode_escape_discards_text() {
    let mut t = Todo::new();
    feed(
        &mut t,
        &[
            Key::Char('i'),
            Key::Char('a'),
            Key::Char('b'),
            Key::Char('c'),
            Key::Esc,
        ],
    );
    assert_eq!(t.mode, Mode::Normal);
    assert_eq!(t.tasks.len(), 0);
    assert_eq!(t.new_task_text, "");
}

#[test]
fn insert_mode_backspace_edits_scratch() {
    let mut t = Todo::new();
    feed(
        &mut t,
        &[Key::Char('i'), Key::Char('a'), Key::Char('b'), Key::Backspace],
    );
    assert_eq!(t.mode, Mode::Insert);
    assert_eq!(t.new_task_text, "a");
    handle_key(&mut t, Key::Backspace);
    handle_key(&mut t, Key::Backspace);
    assert_eq!(t.new_task_text, "");
}

#[test]
fn d_in_insert_mode_is_a_literal_character() {
    let mut t = Todo::new();
    feed(&mut t, &[Key::Char('o'), Key::Char('d'), Key::Enter]);
    assert_eq!(t.tasks.len(), 1);
    assert_eq!(t.tasks[0].text, "d");
}

#[test]
fn delete_mode_ignores_other_keys() {
    let mut t = Todo::new();
    t.insert(String::from("keep me"));
    handle_key(&mut t, Key::Char('d'));
    assert_eq!(t.mode, Mode::Delete);
    handle_key(&mut t, Key::Char('x'));
    assert_eq!(t.mode, Mode::Delete);
    assert_eq!(t.tasks.len(), 1);
    handle_key(&mut t, Key::Up);
    assert_eq!(t.mode, Mode::Delete);
    assert_eq!(t.tasks.len(), 1);
    assert_eq!(t.tasks[0].text, "keep me");
}

#[test]
fn delete_mode_escape_cancels() {
    let mut t = Todo::new();
    t.insert(String::from("keep me"));
    handle_key(&mut t, Key::Char('d'));
    handle_key(&mut t, Key::Esc);
    assert_eq!(t.mode, Mode::Normal);
    assert_eq!(t.tasks.len(), 1);
}

#[test]
fn double_d_deletes_exactly_one() {
    let mut t = Todo::new();
    t.insert(String::from("a"));
    t.insert(String::from("b"));
    let e1 = handle_key(&mut t, Key::Char('d'));
    assert_eq!(e1, Effect::Nothing);
    let e2 = handle_key(&mut t, Key::Char('d'));
    assert_eq!(e2, Effect::Persist);
    assert_eq!(t.mode, Mode::Normal);
    assert_eq!(t.tasks.len(), 1);
    assert_eq!(t.tasks[0].text, "a");
}

#[test]
fn double_d_on_empty_store_changes_nothing() {
    let mut t = Todo::new();
    handle_key(&mut t, Key::Char('d'));
    let e = handle_key(&mut t, Key::Char('d'));
    assert_eq!(e, Effect::Nothing);
    assert_eq!(t.mode, Mode::Normal);
    assert_eq!(t.tasks.len(), 0);
}

#[test]
fn normal_mode_bindings_dispatch() {
    let mut t = Todo::new();
    t.insert(String::from("a"));
    t.insert(String::from("b"));
    handle_key(&mut t, Key::Char('k'));
    assert_eq!(t.current_task, 0);
    handle_key(&mut t, Key::Char('j'));
    assert_eq!(t.current_task, 1);
    handle_key(&mut t, Key::Up);
    assert_eq!(t.current_task, 0);
    handle_key(&mut t, Key::Down);
    assert_eq!(t.current_task, 1);
    let e = handle_key(&mut t, Key::Char(' '));
    assert_eq!(e, Effect::Persist);
    assert!(t.tasks[1].completed);
    let e = handle_key(&mut t, Key::Enter);
    assert_eq!(e, Effect::Persist);
    assert!(!t.tasks[1].completed);
}

#[test]
fn each_insert_opener_clears_scratch() {
    for opener in ['i', 'o', 'a'] {
        let mut t = Todo::new();
        feed(&mut t, &[Key::Char('i'), Key::Char('z'), Key::Esc]);
        handle_key(&mut t, Key::Char(opener));
        assert_eq!(t.mode, Mode::Insert);
        assert_eq!(t.new_task_text, "");
    }
}

#[test]
fn quit_key_signals_quit() {
    let mut t = Todo::new();
    let e = handle_key(&mut t, Key::Char('q'));
    assert_eq!(e, Effect::Quit);
    assert_eq!(t.tasks.len(), 0);
    assert_eq!(t.mode, Mode::Normal);
}

#[test]
fn unbound_keys_do_nothing() {
    let mut t = Todo::new();
    t.insert(String::from("a"));
    let e = handle_key(&mut t, Key::Other);
    assert_eq!(e, Effect::Nothing);
    assert_eq!(t.mode, Mode::Normal);
    assert_eq!(t.tasks.len(), 1);
    let e = handle_key(&mut t, Key::Char('z'));
    assert_eq!(e, Effect::Nothing);
    assert_eq!(t.tasks.len(), 1);
}
