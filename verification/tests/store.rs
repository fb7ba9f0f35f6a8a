use todo_app::time::Timestamp;
use todo_app::todo::{Status, Todo, TodoApp};

fn at(secs: i64) -> Timestamp {
    Timestamp::new(secs, 0).unwrap()
}

fn ids(app: &TodoApp) -> Vec<usize> {
    app.todos().iter().map(|t| t.id).collect()
}

#[test]
fn new_store_is_empty() {
    let app = TodoApp::new();
    assert_eq!(app.todos_len(), 0);
    assert_eq!(app.highest_id(), 0);
    assert_eq!(app.generate_id(), 1);
}

#[test]
fn insert_assigns_ids_from_one() {
    let mut app = TodoApp::new();
    app.insert_todo_at("a".to_string(), at(10));
    app.insert_todo_at("b".to_string(), at(11));
    app.insert_todo_at("c".to_string(), at(12));
    assert_eq!(ids(&app), vec![1, 2, 3]);
    let first = &app.todos()[0];
    assert_eq!(first.title, "a");
    assert_eq!(first.status, Status::Draft);
    assert_eq!(first.created_at, at(10));
    assert_eq!(first.updated_at, at(10));
    assert_eq!(first.deleted_at, None);
}

#[test]
fn insert_after_deleting_a_lower_id_goes_on_from_the_highest() {
    let mut app = TodoApp::new();
    app.insert_todo_at("a".to_string(), at(0));
    app.insert_todo_at("b".to_string(), at(0));
    app.insert_todo_at("c".to_string(), at(0));
    assert!(app.delete_todo(1));
    app.insert_todo_at("d".to_string(), at(0));
    assert_eq!(ids(&app), vec![2, 3, 4]);
}

#[test]
fn insert_after_deleting_the_highest_id_takes_it_again() {
    let mut app = TodoApp::new();
    app.insert_todo_at("a".to_string(), at(0));
    app.insert_todo_at("b".to_string(), at(0));
    app.insert_todo_at("c".to_string(), at(0));
    assert!(app.delete_todo(3));
    assert_eq!(app.generate_id(), 3);
    app.insert_todo_at("d".to_string(), at(0));
    assert_eq!(ids(&app), vec![1, 2, 3]);
    assert_eq!(app.todos()[2].title, "d");
}

#[test]
fn insert_after_deleting_the_highest_id_above_a_gap() {
    let mut app = TodoApp::new();
    app.add_todo(Todo {
        id: 1,
        title: "a".to_string(),
        status: Status::Draft,
        created_at: at(0),
        updated_at: at(0),
        deleted_at: None,
    });
    app.add_todo(Todo {
        id: 5,
        title: "b".to_string(),
        status: Status::Draft,
        created_at: at(0),
        updated_at: at(0),
        deleted_at: None,
    });
    assert_eq!(app.generate_id(), 6);
    assert!(app.delete_todo(5));
    assert_eq!(app.generate_id(), 2);
}

#[test]
fn insert_now_makes_a_draft_with_one_instant() {
    let mut app = TodoApp::new();
    app.insert_todo("now".to_string());
    assert_eq!(app.todos_len(), 1);
    let t = &app.todos()[0];
    assert_eq!(t.id, 1);
    assert_eq!(t.title, "now");
    assert_eq!(t.status, Status::Draft);
    assert_eq!(t.created_at, t.updated_at);
    assert_eq!(t.deleted_at, None);
    assert!(t.created_at.secs() > 1_600_000_000);
}

#[test]
fn update_flips_the_status_and_back() {
    let mut app = TodoApp::new();
    app.insert_todo_at("a".to_string(), at(0));
    app.insert_todo_at("b".to_string(), at(0));
    assert!(app.update_todo(2));
    assert_eq!(app.todos()[0].status, Status::Draft);
    assert_eq!(app.todos()[1].status, Status::Completed);
    assert!(app.update_todo(2));
    assert_eq!(app.todos()[1].status, Status::Draft);
}

#[test]
fn update_of_an_unknown_id_changes_nothing() {
    let mut app = TodoApp::new();
    app.insert_todo_at("a".to_string(), at(0));
    assert!(!app.update_todo(7));
    assert_eq!(app.todos_len(), 1);
    assert_eq!(app.todos()[0].status, Status::Draft);
}

#[test]
fn update_reaches_a_task_marked_as_deleted() {
    let mut app = TodoApp::new();
    app.insert_todo_at("a".to_string(), at(0));
    assert!(app.soft_delete_todo_at(1, at(5)));
    assert!(app.update_todo(1));
    assert_eq!(app.todos()[0].status, Status::Completed);
    assert_eq!(app.todos()[0].deleted_at, Some(at(5)));
    assert_eq!(app.todos_len(), 1);
}

#[test]
fn soft_delete_then_restore_keeps_the_other_fields() {
    let mut app = TodoApp::new();
    app.insert_todo_at("a".to_string(), at(3));
    app.insert_todo_at("b".to_string(), at(4));
    assert!(app.update_todo(2));
    assert!(app.soft_delete_todo_at(2, at(9)));
    assert_eq!(app.todos()[1].deleted_at, Some(at(9)));
    assert_eq!(app.todos()[0].deleted_at, None);
    assert!(app.restore_todo(2));
    let t = &app.todos()[1];
    assert_eq!(t.id, 2);
    assert_eq!(t.title, "b");
    assert_eq!(t.status, Status::Completed);
    assert_eq!(t.created_at, at(4));
    assert_eq!(t.updated_at, at(4));
    assert_eq!(t.deleted_at, None);
}

#[test]
fn soft_delete_now_marks_the_task() {
    let mut app = TodoApp::new();
    app.insert_todo_at("a".to_string(), at(3));
    assert!(app.soft_delete_todo(1));
    assert!(app.todos()[0].deleted_at.is_some());
    assert!(!app.soft_delete_todo(2));
}

#[test]
fn soft_delete_and_restore_of_an_unknown_id() {
    let mut app = TodoApp::new();
    app.insert_todo_at("a".to_string(), at(3));
    assert!(!app.soft_delete_todo_at(4, at(9)));
    assert!(!app.restore_todo(4));
    assert_eq!(app.todos()[0].deleted_at, None);
}

#[test]
fn delete_removes_one_task_and_keeps_the_order() {
    let mut app = TodoApp::new();
    app.seed_todos_at(5, at(0));
    assert!(app.delete_todo(2));
    assert_eq!(ids(&app), vec![1, 3, 4]);
    assert!(!app.delete_todo(2));
    assert_eq!(ids(&app), vec![1, 3, 4]);
}

#[test]
fn lookups_take_the_first_of_two_tasks_with_one_id() {
    let mut app = TodoApp::new();
    app.seed_todos_at(3, at(0));
    app.seed_todos_at(3, at(1));
    assert_eq!(ids(&app), vec![1, 2, 1, 2]);
    assert!(app.update_todo(1));
    assert_eq!(app.todos()[0].status, Status::Completed);
    assert_eq!(app.todos()[2].status, Status::Draft);
    assert!(app.delete_todo(2));
    assert_eq!(ids(&app), vec![1, 1, 2]);
}

#[test]
fn seed_adds_one_task_less_than_asked() {
    let mut app = TodoApp::new();
    app.seed_todos_at(5, at(7));
    assert_eq!(app.todos_len(), 4);
    assert_eq!(ids(&app), vec![1, 2, 3, 4]);
    for (i, t) in app.todos().iter().enumerate() {
        assert_eq!(t.title, format!("Todo list {}", i + 1));
        assert_eq!(t.status, Status::Draft);
        assert_eq!(t.created_at, at(7));
        assert_eq!(t.updated_at, at(7));
        assert_eq!(t.deleted_at, None);
    }
}

#[test]
fn seed_with_nought_or_one_adds_nothing() {
    let mut app = TodoApp::new();
    app.seed_todos_at(0, at(7));
    assert_eq!(app.todos_len(), 0);
    app.seed_todos_at(1, at(7));
    assert_eq!(app.todos_len(), 0);
    app.seed_todos(1);
    assert_eq!(app.todos_len(), 0);
}

#[test]
fn seed_now_writes_titles_past_nine() {
    let mut app = TodoApp::new();
    app.seed_todos(12);
    assert_eq!(app.todos_len(), 11);
    assert_eq!(app.todos()[9].id, 10);
    assert_eq!(app.todos()[9].title, "Todo list 10");
    assert_eq!(app.todos()[10].title, "Todo list 11");
    assert_eq!(app.todos()[0].created_at, app.todos()[10].created_at);
}

#[test]
fn replace_all_puts_the_new_tasks_in_place() {
    let mut app = TodoApp::new();
    app.seed_todos_at(4, at(0));
    let mut other = TodoApp::new();
    other.insert_todo_at("x".to_string(), at(1));
    app.replace_all(other.todos().clone());
    assert_eq!(app.todos_len(), 1);
    assert_eq!(app.todos()[0].title, "x");
}

#[test]
fn status_names() {
    assert_eq!(Status::Draft.name(), "Draft");
    assert_eq!(Status::Completed.name(), "Completed");
}
