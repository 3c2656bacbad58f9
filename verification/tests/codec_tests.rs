use todo_list::codec::{parse_todos, render_todos};
use todo_list::errors::TodoError;
use todo_list::todo::{Priority, Todo};

fn sample(id: u128, title: &str, now: u64) -> Todo {
    Todo::new(String::from(title), id, now)
}

#[test]
fn render_empty_collection() {
    let todos: Vec<Todo> = Vec::new();
    assert_eq!(render_todos(&todos), "[]");
}

#[test]
fn render_one_record_exactly() {
    let todos = vec![sample(7, "Buy milk", 100)];
    let expected = "[\n  {\n    \"id\": \"7\",\n    \"title\": \"Buy milk\",\n    \"description\": null,\n    \"completed\": false,\n    \"created_at\": \"100\",\n    \"updated_at\": \"100\",\n    \"priority\": \"Medium\"\n  }\n]";
    assert_eq!(render_todos(&todos), expected);
}

#[test]
fn parse_empty_collection() {
    let todos = parse_todos("[]").unwrap();
    assert!(todos.is_empty());
}

#[test]
fn parse_one_record_exactly() {
    let text = "[\n  {\n    \"id\": \"42\",\n    \"title\": \"Read book\",\n    \"description\": \"a long one\",\n    \"completed\": true,\n    \"created_at\": \"5\",\n    \"updated_at\": \"9\",\n    \"priority\": \"High\"\n  }\n]";
    let todos = parse_todos(text).unwrap();
    assert_eq!(todos.len(), 1);
    assert_eq!(todos[0].id, 42);
    assert_eq!(todos[0].title, "Read book");
    assert_eq!(todos[0].description.as_deref(), Some("a long one"));
    assert!(todos[0].completed);
    assert_eq!(todos[0].created_at, 5);
    assert_eq!(todos[0].updated_at, 9);
    assert!(matches!(todos[0].priority, Priority::High));
}

#[test]
fn round_trip_keeps_every_field() {
    let mut first = sample(1, "Plain title", 10);
    first.description = Some(String::from("notes"));
    first.complete(20);
    let mut second = sample(340282366920938463463374607431768211455, "Max id", 30);
    second.set_priority(Priority::Low, 35);
    let third = sample(0, "Zero id", 0);
    let todos = vec![first, second, third];

    let text = render_todos(&todos);
    let back = parse_todos(&text).unwrap();

    assert_eq!(back.len(), todos.len());
    for (a, b) in todos.iter().zip(back.iter()) {
        assert_eq!(a.id, b.id);
        assert_eq!(a.title, b.title);
        assert_eq!(a.description, b.description);
        assert_eq!(a.completed, b.completed);
        assert_eq!(a.created_at, b.created_at);
        assert_eq!(a.updated_at, b.updated_at);
        assert_eq!(a.priority, b.priority);
    }
}

#[test]
fn round_trip_escapes_quotes_and_backslashes() {
    let mut todo = sample(9, "say \"hi\" \\ wave", 1);
    todo.description = Some(String::from("line\\break \"quoted\""));
    let todos = vec![todo];
    let text = render_todos(&todos);
    let back = parse_todos(&text).unwrap();
    assert_eq!(back[0].title, "say \"hi\" \\ wave");
    assert_eq!(back[0].description.as_deref(), Some("line\\break \"quoted\""));
}

#[test]
fn parse_rejects_garbage() {
    for bad in [
        "",
        "[",
        "{}",
        "[]extra",
        "[\n]",
        "[\n  {\n    \"id\": \"x\",\n",
        "[\n  {\n    \"id\": \"007\",\n    \"title\": \"t\",\n    \"description\": null,\n    \"completed\": false,\n    \"created_at\": \"0\",\n    \"updated_at\": \"0\",\n    \"priority\": \"Low\"\n  }\n]",
        "[\n  {\n    \"id\": \"1\"\n  }\n]",
    ] {
        let r = parse_todos(bad);
        assert!(
            matches!(r, Err(TodoError::SerializationError(_))),
            "accepted: {bad:?}"
        );
    }
}

#[test]
fn parse_rejects_oversized_id() {
    let text = "[\n  {\n    \"id\": \"340282366920938463463374607431768211456\",\n    \"title\": \"t\",\n    \"description\": null,\n    \"completed\": false,\n    \"created_at\": \"0\",\n    \"updated_at\": \"0\",\n    \"priority\": \"Low\"\n  }\n]";
    assert!(matches!(
        parse_todos(text),
        Err(TodoError::SerializationError(_))
    ));
}

#[test]
fn file_storage_keeps_its_path() {
    let s = todo_list::file_storage::FileStorage::new(String::from("mine.json"));
    assert_eq!(s.file_path(), "mine.json");
    let d = todo_list::file_storage::FileStorage::default().unwrap();
    assert_eq!(d.file_path(), "todos.json");
}

#[test]
fn round_trip_keeps_non_ascii_text() {
    let mut todo = sample(3, "caf\u{e9} \u{2615} na\u{ef}ve", 2);
    todo.description = Some(String::from("\u{65e5}\u{672c}\u{8a9e} memo"));
    let todos = vec![todo];
    let text = render_todos(&todos);
    let back = parse_todos(&text).unwrap();
    assert_eq!(back[0].title, "caf\u{e9} \u{2615} na\u{ef}ve");
    assert_eq!(
        back[0].description.as_deref(),
        Some("\u{65e5}\u{672c}\u{8a9e} memo")
    );
}
