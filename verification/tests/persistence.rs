use todot::codec::{decode_tasks, encode_tasks, read_request, write_request};
use todot::input::{handle_key, Key};
use todot::todo::{PersistenceError, Todo};

#[test]
fn empty_store_encodes_as_empty_array() {
    let t = Todo::new();
    assert_eq!(t.to_json(), "[]");
}

#[test]
fn encode_has_exact_canonical_form() {
    let mut t = Todo::new();
    t.insert(String::from("milk"));
    t.insert(String::from("eggs"));
    t.toggle();
    assert_eq!(
        t.to_json(),
        "[{\"text\":\"milk\",\"completed\":false},{\"text\":\"eggs\",\"completed\":true}]"
    );
}

#[test]
fn encode_escapes_quotes_backslashes_and_controls() {
    let mut t = Todo::new();
    t.insert(String::from("a\"b\\c\nd\u{1}e"));
    assert_eq!(
        t.to_json(),
        "[{\"text\":\"a\\\"b\\\\c\\u000ad\\u0001e\",\"completed\":false}]"
    );
}

#[test]
fn round_trip_keeps_texts_and_flags_in_order() {
    let mut t = Todo::new();
    t.insert(String::from("first"));
    t.insert(String::from("second \"quoted\" \\slashed\\"));
    t.insert(String::from("third\twith\ncontrols"));
    t.insert(String::from("vierte Aufgabe äöü"));
    t.toggle();
    let saved = t.to_json();
    let loaded = Todo::from_json(Some(saved.as_str())).unwrap();
    assert_eq!(loaded.tasks.len(), t.tasks.len());
    for i in 0..t.tasks.len() {
        assert_eq!(loaded.tasks[i].text, t.tasks[i].text);
        assert_eq!(loaded.tasks[i].completed, t.tasks[i].completed);
    }
    assert_eq!(loaded.current_task, 0);
}

#[test]
fn round_trip_of_empty_store() {
    let t = Todo::new();
    let saved = t.to_json();
    let loaded = Todo::from_json(Some(saved.as_str())).unwrap();
    assert_eq!(loaded.tasks.len(), 0);
}

#[test]
fn valid_json_with_whitespace_loads() {
    let t = Todo::from_json(Some("[ ]")).unwrap();
    assert_eq!(t.tasks.len(), 0);
    let t = Todo::from_json(Some("[\n  { \"completed\": true, \"text\": \"a\" }\n]\n")).unwrap();
    assert_eq!(t.tasks.len(), 1);
    assert_eq!(t.tasks[0].text, "a");
    assert!(t.tasks[0].completed);
    assert_eq!(t.current_task, 0);
}

#[test]
fn missing_file_loads_as_empty_store_not_error() {
    let loaded = Todo::from_json(None);
    let t = loaded.unwrap();
    assert_eq!(t.tasks.len(), 0);
    assert_eq!(t.current_task, 0);
}

#[test]
fn malformed_data_is_a_serialization_error() {
    assert_eq!(
        Todo::from_json(Some("garbage")).unwrap_err(),
        PersistenceError::Serialization
    );
    assert_eq!(
        Todo::from_json(Some("")).unwrap_err(),
        PersistenceError::Serialization
    );
    assert_eq!(
        Todo::from_json(Some("[{\"text\":\"a\"}]")).unwrap_err(),
        PersistenceError::Serialization
    );
}

#[test]
fn decode_parses_escapes() {
    let v = decode_tasks("[{\"text\":\"a\\\"b\\\\c\\n\\t\\u0001\",\"completed\":true}]").unwrap();
    assert_eq!(v.len(), 1);
    assert_eq!(v[0].text, "a\"b\\c\n\t\u{1}");
    assert!(v[0].completed);
}

#[test]
fn decode_rejects_trailing_input() {
    assert!(decode_tasks("[]x").is_none());
    assert!(decode_tasks("[{\"text\":\"a\",\"completed\":false}],").is_none());
}

#[test]
fn decode_accepts_whitespace_between_tokens() {
    let v = decode_tasks(" [ ] ").unwrap();
    assert_eq!(v.len(), 0);
    let v = decode_tasks(
        "\n[ {\"text\" : \"a\", \"completed\" : true } ,\t{ \"text\":\"b\",\"completed\":false} ]\n"
    )
    .unwrap();
    assert_eq!(v.len(), 2);
    assert_eq!(v[0].text, "a");
    assert!(v[0].completed);
    assert_eq!(v[1].text, "b");
    assert!(!v[1].completed);
}

#[test]
fn decode_accepts_either_key_order() {
    let v = decode_tasks("[{\"completed\":true,\"text\":\"a\"}]").unwrap();
    assert_eq!(v.len(), 1);
    assert_eq!(v[0].text, "a");
    assert!(v[0].completed);
}

#[test]
fn decode_rejects_duplicate_or_missing_keys() {
    assert!(decode_tasks("[{\"text\":\"a\",\"text\":\"b\"}]").is_none());
    assert!(decode_tasks("[{\"completed\":true,\"completed\":false}]").is_none());
    assert!(decode_tasks("[{\"completed\":true}]").is_none());
}

#[test]
fn decode_accepts_full_unicode_escapes() {
    let v = decode_tasks("[{\"text\":\"\\u0041\\u00e9\\u20AC\",\"completed\":false}]").unwrap();
    assert_eq!(v[0].text, "A\u{e9}\u{20ac}");
    let v = decode_tasks("[{\"text\":\"\\uD83D\\uDE00\",\"completed\":false}]").unwrap();
    assert_eq!(v[0].text, "\u{1f600}");
}

#[test]
fn decode_rejects_lone_surrogates() {
    assert!(decode_tasks("[{\"text\":\"\\uD83D\",\"completed\":false}]").is_none());
    assert!(decode_tasks("[{\"text\":\"\\uDE00\",\"completed\":false}]").is_none());
    assert!(decode_tasks("[{\"text\":\"\\uD83D\\u0041\",\"completed\":false}]").is_none());
}

#[test]
fn decode_rejects_unterminated_string() {
    assert!(decode_tasks("[{\"text\":\"a").is_none());
    assert!(decode_tasks("[{\"text\":\"a\\").is_none());
}

#[test]
fn encode_tasks_matches_store_serialization() {
    let mut t = Todo::new();
    t.insert(String::from("x"));
    assert_eq!(encode_tasks(&t.tasks), t.to_json());
}

#[test]
fn write_request_has_command_line_then_body() {
    let mut t = Todo::new();
    t.insert(String::from("a"));
    let req = write_request(&t.tasks);
    assert_eq!(req, "write\n[{\"text\":\"a\",\"completed\":false}]");
}

#[test]
fn read_request_is_the_command_line() {
    assert_eq!(read_request(), "read\n");
}

#[test]
fn decode_accepts_a_line_terminated_response() {
    let v = decode_tasks("[{\"text\":\"a\",\"completed\":false}]\n").unwrap();
    assert_eq!(v.len(), 1);
    assert_eq!(v[0].text, "a");
    let v = decode_tasks("[]").unwrap();
    assert_eq!(v.len(), 0);
}

#[test]
fn saving_after_each_mutation_round_trips() {
    let mut t = Todo::new();
    for k in [
        Key::Char('i'),
        Key::Char('t'),
        Key::Char('o'),
        Key::Char('d'),
        Key::Char('o'),
        Key::Enter,
        Key::Char(' '),
    ] {
        handle_key(&mut t, k);
    }
    let loaded = Todo::from_json(Some(t.to_json().as_str())).unwrap();
    assert_eq!(loaded.tasks.len(), 1);
    assert_eq!(loaded.tasks[0].text, "todo");
    assert!(loaded.tasks[0].completed);
}
