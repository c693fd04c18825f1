use todot::todo::{Options, Todo};

#[test]
fn new_store_is_empty() {
    let t = Todo::new();
    assert_eq!(t.tasks.len(), 0);
    assert_eq!(t.current_task, 0);
    assert_eq!(t.new_task_text, "");
}

#[test]
fn insert_appends_and_selects() {
    let mut t = Todo::new();
    t.insert(String::from("first"));
    assert_eq!(t.tasks.len(), 1);
    assert_eq!(t.current_task, 0);
    t.insert(String::from("second"));
    assert_eq!(t.tasks.len(), 2);
    assert_eq!(t.current_task, 1);
    assert_eq!(t.tasks[0].text, "first");
    assert_eq!(t.tasks[1].text, "second");
    assert!(!t.tasks[0].completed);
    assert!(!t.tasks[1].completed);
}

#[test]
fn toggle_flips_selected() {
    let mut t = Todo::new();
    t.insert(String::from("a"));
    t.insert(String::from("b"));
    t.toggle();
    assert!(!t.tasks[0].completed);
    assert!(t.tasks[1].completed);
    t.toggle();
    assert!(!t.tasks[1].completed);
}

#[test]
fn toggle_on_empty_store_is_a_noop() {
    let mut t = Todo::new();
    t.toggle();
    assert_eq!(t.tasks.len(), 0);
    assert_eq!(t.current_task, 0);
}

#[test]
fn delete_removes_selected_and_clamps() {
    let mut t = Todo::new();
    t.insert(String::from("a"));
    t.insert(String::from("b"));
    t.insert(String::from("c"));
    t.prev();
    assert_eq!(t.current_task, 1);
    t.delete();
    assert_eq!(t.tasks.len(), 2);
    assert_eq!(t.current_task, 0);
    assert_eq!(t.tasks[0].text, "a");
    assert_eq!(t.tasks[1].text, "c");
    assert!(t.current_task < t.tasks.len());
}

#[test]
fn delete_first_keeps_cursor_at_zero() {
    let mut t = Todo::new();
    t.insert(String::from("a"));
    t.insert(String::from("b"));
    t.prev();
    t.delete();
    assert_eq!(t.tasks.len(), 1);
    assert_eq!(t.current_task, 0);
    assert_eq!(t.tasks[0].text, "b");
}

#[test]
fn delete_on_empty_store_is_a_noop() {
    let mut t = Todo::new();
    t.delete();
    assert_eq!(t.tasks.len(), 0);
    assert_eq!(t.current_task, 0);
}

#[test]
fn navigation_stays_in_bounds() {
    let mut t = Todo::new();
    t.prev();
    assert_eq!(t.current_task, 0);
    t.next();
    assert_eq!(t.current_task, 0);
    t.insert(String::from("a"));
    t.insert(String::from("b"));
    t.insert(String::from("c"));
    t.next();
    assert_eq!(t.current_task, 2);
    t.prev();
    t.prev();
    assert_eq!(t.current_task, 0);
    t.prev();
    assert_eq!(t.current_task, 0);
    t.next();
    t.next();
    t.next();
    assert_eq!(t.current_task, 2);
}

#[test]
fn list_projects_rows() {
    let mut t = Todo::new();
    t.insert(String::from("milk"));
    t.insert(String::from("eggs"));
    t.toggle();
    t.prev();
    let rows = t.list();
    assert_eq!(rows.len(), 2);
    assert_eq!(rows[0].label, "[ ] milk");
    assert_eq!(rows[1].label, "[x] eggs");
    assert!(rows[0].selected);
    assert!(!rows[1].selected);
    assert!(!rows[0].completed);
    assert!(rows[1].completed);
}

#[test]
fn default_options_use_local_persistence() {
    let o = Options::default();
    assert!(o.server_address.is_none());
}
