use rust_todo::display::decimal_string;
use rust_todo::{can_handle, list_title, row_text, selection_valid, status_line, tag_badge};
use rust_todo::{App, InputMode, Key, Priority, Todo, TodoList};

fn todo(text: &str, done: bool, priority: Priority, created_at: u64, tags: &[&str]) -> Todo {
    Todo {
        text: text.to_string(),
        done,
        priority,
        created_at,
        tags: tags.iter().map(|t| t.to_string()).collect(),
    }
}

#[test]
fn decimal_notation() {
    assert_eq!(decimal_string(0), "0");
    assert_eq!(decimal_string(7), "7");
    assert_eq!(decimal_string(10), "10");
    assert_eq!(decimal_string(1234567), "1234567");
}

#[test]
fn list_title_counts_done_and_total() {
    let app = App::new(TodoList {
        items: vec![
            todo("a", true, Priority::Low, 1, &[]),
            todo("b", false, Priority::Low, 2, &[]),
            todo("c", true, Priority::Low, 3, &[]),
        ],
    });
    assert_eq!(list_title(&app), " Todos (2/3) ");
}

#[test]
fn list_title_shows_filtered_count_while_searching() {
    let mut app = App::new(TodoList {
        items: vec![
            todo("apple", false, Priority::Low, 1, &[]),
            todo("banana", false, Priority::Low, 2, &[]),
        ],
    });
    app.search_query = "app".to_string();
    app.refresh_filter();
    assert_eq!(list_title(&app), " Todos (0/2) filtered: 1");
}

#[test]
fn status_line_without_todos() {
    let app = App::new(TodoList { items: vec![] });
    assert_eq!(status_line(&app), "No todos yet. Press 'n' to add one!");
}

#[test]
fn status_line_for_selected_todo() {
    let app = App::new(TodoList {
        items: vec![todo("Write docs", false, Priority::Medium, 1, &[])],
    });
    assert_eq!(status_line(&app), "Selected: \"Write docs\" | MED  | Pending");
    let app = App::new(TodoList {
        items: vec![todo("Ship", true, Priority::High, 1, &["bug", "v2"])],
    });
    assert_eq!(status_line(&app), "Selected: \"Ship\" | HIGH | Done | tags: [bug, v2]");
}

#[test]
fn status_line_without_selection_is_empty() {
    let mut app = App::new(TodoList {
        items: vec![todo("x", false, Priority::Low, 1, &[])],
    });
    app.list_state.select(None);
    assert_eq!(status_line(&app), "");
    app.list_state.select(Some(5));
    assert_eq!(status_line(&app), "");
}

#[test]
fn row_texts() {
    let t = todo("milk", false, Priority::Low, 1, &[]);
    assert_eq!(row_text(&t), "☐ milk");
    assert_eq!(tag_badge(&t), "");
    let t = todo("milk", true, Priority::Low, 1, &["shop", "food"]);
    assert_eq!(row_text(&t), "✓ ~~milk~~");
    assert_eq!(tag_badge(&t), "[shop, food] ");
}

#[test]
fn key_checks() {
    let mut app = App::new(TodoList {
        items: vec![todo("x", false, Priority::Low, 1, &[])],
    });
    assert!(selection_valid(&app));
    assert!(can_handle(Key::Char(' '), &app));
    app.filtered_indices = vec![3];
    assert!(!selection_valid(&app));
    assert!(!can_handle(Key::Char(' '), &app));
    assert!(can_handle(Key::Char('q'), &app));
    app.input_mode = InputMode::Editing(9);
    assert!(!can_handle(Key::Enter, &app));
    assert!(can_handle(Key::Char('a'), &app));
    assert!(can_handle(Key::Esc, &app));
}

#[test]
fn confirm_edit_ignores_a_stale_tagging_index() {
    let mut app = App::new(TodoList {
        items: vec![todo("x", false, Priority::Low, 1, &[])],
    });
    app.input = "new".to_string();
    app.input_mode = InputMode::Tagging(7);
    assert!(!app.confirm_edit());
    assert_eq!(app.todos.items[0].text, "x");
    assert!(matches!(app.input_mode, InputMode::Normal));
}
