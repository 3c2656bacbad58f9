use todo_list::errors::TodoError;
use todo_list::memory_storage::MemoryStorage;
use todo_list::service::TodoService;
use todo_list::storage::TodoStorage;
use todo_list::todo::{parse_priority, Priority, Todo};

fn new_service() -> TodoService<MemoryStorage> {
    TodoService::new(MemoryStorage::new())
}

#[test]
fn create_then_get_returns_record() {
    let mut service = new_service();
    let todo = service.create_todo(String::from("Buy milk")).unwrap();
    let found = service.get_todo_by_id(todo.id).unwrap().unwrap();
    assert_eq!(found.title, "Buy milk");
    assert!(!found.completed);
    assert!(found.description.is_none());
    assert!(matches!(found.priority, Priority::Medium));
    assert!(found.updated_at >= found.created_at);
}

#[test]
fn create_empty_title_fails() {
    let mut service = new_service();
    let r = service.create_todo(String::from(""));
    assert!(matches!(r, Err(TodoError::ValidationError(_))));
}

#[test]
fn create_blank_title_fails() {
    let mut service = new_service();
    let r = service.create_todo(String::from("   "));
    assert!(matches!(r, Err(TodoError::ValidationError(_))));
}

#[test]
fn create_with_priority_keeps_priority() {
    let mut service = new_service();
    let todo = service
        .create_todo_with_priority(String::from("Ship release"), Priority::High)
        .unwrap();
    let found = service.get_todo_by_id(todo.id).unwrap().unwrap();
    assert!(matches!(found.priority, Priority::High));
    assert!(!found.completed);
}

#[test]
fn complete_is_idempotent() {
    let mut service = new_service();
    let todo = service.create_todo(String::from("Water plants")).unwrap();
    service.complete_todo(todo.id).unwrap();
    let after_one = service.get_todo_by_id(todo.id).unwrap().unwrap();
    assert!(after_one.completed);
    service.complete_todo(todo.id).unwrap();
    let after_two = service.get_todo_by_id(todo.id).unwrap().unwrap();
    assert!(after_two.completed);
    assert_eq!(after_two.title, "Water plants");
}

#[test]
fn toggle_alternates() {
    let mut service = new_service();
    let todo = service.create_todo(String::from("Call home")).unwrap();
    service.toggle_todo(todo.id).unwrap();
    assert!(service.get_todo_by_id(todo.id).unwrap().unwrap().completed);
    service.toggle_todo(todo.id).unwrap();
    assert!(!service.get_todo_by_id(todo.id).unwrap().unwrap().completed);
}

#[test]
fn complete_missing_is_not_found() {
    let mut service = new_service();
    let r = service.complete_todo(12345);
    assert!(matches!(r, Err(TodoError::NotFound(_))));
}

#[test]
fn delete_absent_is_not_found() {
    let mut service = new_service();
    let r = service.delete_todo(999);
    assert!(matches!(r, Err(TodoError::NotFound(_))));
}

#[test]
fn delete_present_removes_record() {
    let mut service = new_service();
    let todo = service.create_todo(String::from("Old task")).unwrap();
    service.delete_todo(todo.id).unwrap();
    assert!(service.get_todo_by_id(todo.id).unwrap().is_none());
    let again = service.delete_todo(todo.id);
    assert!(matches!(again, Err(TodoError::NotFound(_))));
}

#[test]
fn update_title_replaces_title() {
    let mut service = new_service();
    let todo = service.create_todo(String::from("Draft")).unwrap();
    service
        .update_todo_title(todo.id, String::from("Final"))
        .unwrap();
    let found = service.get_todo_by_id(todo.id).unwrap().unwrap();
    assert_eq!(found.title, "Final");
}

#[test]
fn update_title_blank_fails() {
    let mut service = new_service();
    let todo = service.create_todo(String::from("Draft")).unwrap();
    let r = service.update_todo_title(todo.id, String::from(" \t "));
    assert!(matches!(r, Err(TodoError::ValidationError(_))));
    assert_eq!(
        service.get_todo_by_id(todo.id).unwrap().unwrap().title,
        "Draft"
    );
}

#[test]
fn update_title_missing_is_not_found() {
    let mut service = new_service();
    let r = service.update_todo_title(42, String::from("Anything"));
    assert!(matches!(r, Err(TodoError::NotFound(_))));
}

#[test]
fn scenario_buy_milk_lifecycle() {
    let mut service = new_service();
    let todo = service.create_todo(String::from("Buy milk")).unwrap();
    assert!(matches!(todo.priority, Priority::Medium));

    let listed = service.get_todos().unwrap();
    assert_eq!(listed.len(), 1);
    assert_eq!(listed[0].title, "Buy milk");
    assert!(!listed[0].completed);

    service.complete_todo(todo.id).unwrap();
    let listed = service.get_todos().unwrap();
    assert_eq!(listed.len(), 1);
    assert!(listed[0].completed);

    service.delete_todo(todo.id).unwrap();
    assert!(service.get_todos().unwrap().is_empty());
}

#[test]
fn saving_same_id_twice_keeps_one_record() {
    let mut storage = MemoryStorage::new();
    let mut todo = Todo::new(String::from("First"), 7, 100);
    storage.save(&todo).unwrap();
    todo.update_title(String::from("Second"), 200);
    storage.save(&todo).unwrap();
    let all = storage.find_all().unwrap();
    assert_eq!(all.len(), 1);
    assert_eq!(all[0].title, "Second");
    assert_eq!(all[0].id, 7);
}

#[test]
fn parse_priority_accepts_known_tags() {
    assert!(matches!(parse_priority(None), Ok(Priority::Medium)));
    assert!(matches!(
        parse_priority(Some(String::from("low"))),
        Ok(Priority::Low)
    ));
    assert!(matches!(
        parse_priority(Some(String::from("medium"))),
        Ok(Priority::Medium)
    ));
    assert!(matches!(
        parse_priority(Some(String::from("high"))),
        Ok(Priority::High)
    ));
}

#[test]
fn parse_priority_rejects_unknown_tag() {
    let r = parse_priority(Some(String::from("urgent")));
    assert!(matches!(r, Err(TodoError::ValidationError(_))));
}

#[test]
fn error_messages_are_kept() {
    let e = TodoError::IoError(String::from("disk unplugged"));
    assert_eq!(e.message(), "disk unplugged");
    let e = TodoError::StorageError(String::from("backend gone"));
    assert_eq!(e.message(), "backend gone");
}

#[test]
fn todo_mutators_refresh_stamp() {
    let mut todo = Todo::new(String::from("Task"), 1, 50);
    assert_eq!(todo.created_at, 50);
    assert_eq!(todo.updated_at, 50);
    todo.complete(80);
    assert!(todo.completed);
    assert_eq!(todo.updated_at, 80);
    todo.set_priority(Priority::Low, 90);
    assert!(matches!(todo.priority, Priority::Low));
    assert_eq!(todo.updated_at, 90);
    todo.toggle_complete(40);
    assert!(!todo.completed);
    assert_eq!(todo.updated_at, 50);
}

#[test]
fn create_unicode_whitespace_title_fails() {
    let mut service = new_service();
    let r = service.create_todo(String::from("\u{a0}\u{2003}\u{a0}"));
    assert!(matches!(r, Err(TodoError::ValidationError(_))));
}
