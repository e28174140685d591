use rust_todo::{App, InputMode, Priority, PriorityColor, SortMode, Todo, TodoList};

fn make_todo(text: &str, priority: Priority, done: bool, created_at: u64) -> Todo {
    Todo {
        text: text.to_string(),
        done,
        priority,
        created_at,
        tags: vec![],
    }
}

fn make_todo_with_tags(
    text: &str,
    priority: Priority,
    done: bool,
    created_at: u64,
    tags: Vec<String>,
) -> Todo {
    Todo {
        text: text.to_string(),
        done,
        priority,
        created_at,
        tags,
    }
}

#[test]
fn test_todo_creation() {
    let todo = make_todo("Test todo", Priority::Medium, false, 1000);
    assert_eq!(todo.text, "Test todo");
    assert!(!todo.done);
    assert!(matches!(todo.priority, Priority::Medium));
    assert_eq!(todo.created_at, 1000);
    assert!(todo.tags.is_empty());
}

#[test]
fn test_priority_cycle() {
    assert!(matches!(Priority::Low.next(), Priority::Medium));
    assert!(matches!(Priority::Medium.next(), Priority::High));
    assert!(matches!(Priority::High.next(), Priority::Low));
}

#[test]
fn test_priority_color() {
    assert_eq!(Priority::High.color(), PriorityColor::Red);
    assert_eq!(Priority::Medium.color(), PriorityColor::Yellow);
    assert_eq!(Priority::Low.color(), PriorityColor::Green);
}

#[test]
fn test_priority_label() {
    assert_eq!(Priority::High.label(), "HIGH");
    assert_eq!(Priority::Medium.label(), "MED ");
    assert_eq!(Priority::Low.label(), "LOW ");
}

#[test]
fn test_toggle_done() {
    let mut todo = make_todo("Test", Priority::Low, false, 0);
    assert!(!todo.done);
    todo.done = !todo.done;
    assert!(todo.done);
    todo.done = !todo.done;
    assert!(!todo.done);
}

#[test]
fn test_add_remove_from_list() {
    let mut list = TodoList { items: vec![] };
    assert!(list.items.is_empty());

    list.items
        .push(make_todo("First", Priority::High, false, 1));
    assert_eq!(list.items.len(), 1);

    list.items
        .push(make_todo("Second", Priority::Low, false, 2));
    assert_eq!(list.items.len(), 2);

    list.items.remove(0);
    assert_eq!(list.items.len(), 1);
    assert_eq!(list.items[0].text, "Second");
}

#[test]
fn test_sort_mode_cycle() {
    assert!(matches!(SortMode::Priority.next(), SortMode::Newest));
    assert!(matches!(SortMode::Newest.next(), SortMode::Oldest));
    assert!(matches!(SortMode::Oldest.next(), SortMode::Alpha));
    assert!(matches!(SortMode::Alpha.next(), SortMode::Tag));
    assert!(matches!(SortMode::Tag.next(), SortMode::Priority));
}

#[test]
fn test_sort_mode_label() {
    assert_eq!(SortMode::Priority.label(), "PRI");
    assert_eq!(SortMode::Newest.label(), "NEW");
    assert_eq!(SortMode::Oldest.label(), "OLD");
    assert_eq!(SortMode::Alpha.label(), "A-Z");
    assert_eq!(SortMode::Tag.label(), "TAG");
}

#[test]
fn test_todo_with_tags() {
    let todo = make_todo_with_tags(
        "Test",
        Priority::High,
        false,
        1,
        vec!["bug".to_string(), "urgent".to_string()],
    );
    assert_eq!(todo.tags.len(), 2);
    assert_eq!(todo.tags[0], "bug");
    assert_eq!(todo.tags[1], "urgent");
}

#[test]
fn test_todo_empty_tags() {
    let todo = make_todo("Test", Priority::Medium, false, 1);
    assert!(todo.tags.is_empty());
}

#[test]
fn test_confirm_tags() {
    let mut app = App::new(TodoList { items: vec![] });
    app.todos.items = vec![make_todo("Test", Priority::Medium, false, 1)];
    app.filtered_indices = vec![0];
    app.list_state.select(Some(0));

    app.input = "bug, urgent, feature".to_string();
    app.input_mode = InputMode::Tagging(0);
    app.confirm_tags();

    assert_eq!(app.todos.items[0].tags.len(), 3);
    assert_eq!(app.todos.items[0].tags[0], "bug");
    assert_eq!(app.todos.items[0].tags[1], "urgent");
    assert_eq!(app.todos.items[0].tags[2], "feature");
    assert!(matches!(app.input_mode, InputMode::Normal));
}

#[test]
fn test_confirm_tags_empty_and_whitespace() {
    let mut app = App::new(TodoList { items: vec![] });
    app.todos.items = vec![make_todo_with_tags(
        "Test",
        Priority::Medium,
        false,
        1,
        vec!["old".to_string()],
    )];
    app.filtered_indices = vec![0];

    app.input = " , , ".to_string();
    app.input_mode = InputMode::Tagging(0);
    app.confirm_tags();

    assert!(app.todos.items[0].tags.is_empty());
}

#[test]
fn test_confirm_tags_trims_whitespace() {
    let mut app = App::new(TodoList { items: vec![] });
    app.todos.items = vec![make_todo("Test", Priority::Medium, false, 1)];
    app.filtered_indices = vec![0];

    app.input = "  bug ,  urgent  ".to_string();
    app.input_mode = InputMode::Tagging(0);
    app.confirm_tags();

    assert_eq!(app.todos.items[0].tags[0], "bug");
    assert_eq!(app.todos.items[0].tags[1], "urgent");
}

#[test]
fn test_start_tagging() {
    let mut app = App::new(TodoList { items: vec![] });
    app.todos.items = vec![make_todo_with_tags(
        "Test",
        Priority::Medium,
        false,
        1,
        vec!["rust".to_string()],
    )];
    app.filtered_indices = vec![0];

    app.start_tagging(0);
    assert_eq!(app.input, "rust");
    assert!(matches!(app.input_mode, InputMode::Tagging(0)));
}

#[test]
fn test_start_tagging_empty() {
    let mut app = App::new(TodoList { items: vec![] });
    app.todos.items = vec![make_todo("Test", Priority::Medium, false, 1)];
    app.filtered_indices = vec![0];

    app.start_tagging(0);
    assert_eq!(app.input, "");
    assert!(matches!(app.input_mode, InputMode::Tagging(0)));
}

#[test]
fn test_sort_by_tag() {
    let mut app = App::new(TodoList { items: vec![] });
    app.todos.items = vec![
        make_todo_with_tags("B", Priority::Medium, false, 1, vec!["z".to_string()]),
        make_todo_with_tags("A", Priority::Medium, false, 2, vec!["a".to_string()]),
        make_todo_with_tags("C", Priority::Medium, false, 3, vec![]),
    ];
    app.filtered_indices = vec![0, 1, 2];
    app.sort_mode = SortMode::Tag;
    app.sort_filtered();

    // Items without tags come first (empty string), then "a", then "z"
    let first = &app.todos.items[app.filtered_indices[0]];
    let second = &app.todos.items[app.filtered_indices[1]];
    let third = &app.todos.items[app.filtered_indices[2]];

    assert!(first.tags.is_empty());
    assert_eq!(second.tags[0], "a");
    assert_eq!(third.tags[0], "z");
}

#[test]
fn test_sort_by_priority() {
    let mut app = App::new(TodoList { items: vec![] });
    app.todos.items = vec![
        make_todo("Low prio", Priority::Low, false, 1),
        make_todo("High prio", Priority::High, false, 2),
        make_todo("Med prio", Priority::Medium, false, 3),
    ];
    app.filtered_indices = vec![0, 1, 2];
    app.sort_mode = SortMode::Priority;
    app.sort_filtered();

    let first = &app.todos.items[app.filtered_indices[0]];
    let second = &app.todos.items[app.filtered_indices[1]];
    let third = &app.todos.items[app.filtered_indices[2]];

    assert!(matches!(first.priority, Priority::High));
    assert!(matches!(second.priority, Priority::Medium));
    assert!(matches!(third.priority, Priority::Low));
}

#[test]
fn test_sort_by_newest() {
    let mut app = App::new(TodoList { items: vec![] });
    app.todos.items = vec![
        make_todo("Old", Priority::Medium, false, 1),
        make_todo("New", Priority::Medium, false, 100),
        make_todo("Mid", Priority::Medium, false, 50),
    ];
    app.filtered_indices = vec![0, 1, 2];
    app.sort_mode = SortMode::Newest;
    app.sort_filtered();

    let sorted: Vec<u64> = app
        .filtered_indices
        .iter()
        .map(|&i| app.todos.items[i].created_at)
        .collect();
    assert_eq!(sorted, vec![100, 50, 1]);
}

#[test]
fn test_sort_by_oldest() {
    let mut app = App::new(TodoList { items: vec![] });
    app.todos.items = vec![
        make_todo("New", Priority::Medium, false, 100),
        make_todo("Old", Priority::Medium, false, 1),
        make_todo("Mid", Priority::Medium, false, 50),
    ];
    app.filtered_indices = vec![0, 1, 2];
    app.sort_mode = SortMode::Oldest;
    app.sort_filtered();

    let sorted: Vec<u64> = app
        .filtered_indices
        .iter()
        .map(|&i| app.todos.items[i].created_at)
        .collect();
    assert_eq!(sorted, vec![1, 50, 100]);
}

#[test]
fn test_sort_by_alpha() {
    let mut app = App::new(TodoList { items: vec![] });
    app.todos.items = vec![
        make_todo("banana", Priority::Medium, false, 1),
        make_todo("apple", Priority::Medium, false, 2),
        make_todo("Cherry", Priority::Medium, false, 3),
    ];
    app.filtered_indices = vec![0, 1, 2];
    app.sort_mode = SortMode::Alpha;
    app.sort_filtered();

    let sorted: Vec<&str> = app
        .filtered_indices
        .iter()
        .map(|&i| app.todos.items[i].text.as_str())
        .collect();
    assert_eq!(sorted, vec!["apple", "banana", "Cherry"]);
}

#[test]
fn test_cycle_sort() {
    let mut app = App::new(TodoList { items: vec![] });
    app.todos.items = vec![make_todo("Test", Priority::Medium, false, 1)];
    app.filtered_indices = vec![0];
    app.list_state.select(Some(0));

    assert!(matches!(app.sort_mode, SortMode::Newest));
    app.cycle_sort();
    assert!(matches!(app.sort_mode, SortMode::Oldest));
    app.cycle_sort();
    assert!(matches!(app.sort_mode, SortMode::Alpha));
    app.cycle_sort();
    assert!(matches!(app.sort_mode, SortMode::Tag));
    app.cycle_sort();
    assert!(matches!(app.sort_mode, SortMode::Priority));
    app.cycle_sort();
    assert!(matches!(app.sort_mode, SortMode::Newest));
}

#[test]
fn test_cycle_priority() {
    let mut app = App::new(TodoList { items: vec![] });
    app.todos.items = vec![make_todo("Test", Priority::Low, false, 1)];
    app.filtered_indices = vec![0];
    app.list_state.select(Some(0));

    app.cycle_priority();
    assert!(matches!(app.todos.items[0].priority, Priority::Medium));
    app.cycle_priority();
    assert!(matches!(app.todos.items[0].priority, Priority::High));
    app.cycle_priority();
    assert!(matches!(app.todos.items[0].priority, Priority::Low));
}

#[test]
fn test_toggle_done_in_app() {
    let mut app = App::new(TodoList { items: vec![] });
    app.todos.items = vec![make_todo("Test", Priority::Medium, false, 1)];
    app.filtered_indices = vec![0];
    app.list_state.select(Some(0));

    assert!(!app.todos.items[0].done);
    app.toggle_done();
    assert!(app.todos.items[0].done);
    app.toggle_done();
    assert!(!app.todos.items[0].done);
}

#[test]
fn test_delete_todo() {
    let mut app = App::new(TodoList { items: vec![] });
    app.todos.items = vec![
        make_todo("First", Priority::Medium, false, 1),
        make_todo("Second", Priority::Medium, false, 2),
    ];
    app.filtered_indices = vec![0, 1];
    app.list_state.select(Some(0));

    assert_eq!(app.todos.items.len(), 2);
    app.delete_todo();
    assert_eq!(app.todos.items.len(), 1);
    assert_eq!(app.todos.items[0].text, "Second");
}

#[test]
fn test_add_todo() {
    let mut app = App::new(TodoList { items: vec![] });
    app.input = "New task".to_string();
    app.input_mode = InputMode::Adding;
    app.add_todo();

    assert_eq!(app.todos.items.len(), 1);
    assert_eq!(app.todos.items[0].text, "New task");
    assert!(!app.todos.items[0].done);
    assert!(matches!(app.todos.items[0].priority, Priority::Medium));
    assert!(app.todos.items[0].tags.is_empty());
}

#[test]
fn test_add_todo_empty_input() {
    let mut app = App::new(TodoList { items: vec![] });
    app.input = "   ".to_string();
    app.input_mode = InputMode::Adding;
    app.add_todo();

    assert!(app.todos.items.is_empty());
}

#[test]
fn test_confirm_edit() {
    let mut app = App::new(TodoList { items: vec![] });
    app.todos.items = vec![make_todo("Old text", Priority::Medium, false, 1)];
    app.input = "New text".to_string();
    app.input_mode = InputMode::Editing(0);
    app.confirm_edit();

    assert_eq!(app.todos.items[0].text, "New text");
    assert!(matches!(app.input_mode, InputMode::Normal));
}

#[test]
fn test_confirm_edit_empty_input() {
    let mut app = App::new(TodoList { items: vec![] });
    app.todos.items = vec![make_todo("Old text", Priority::Medium, false, 1)];
    app.input = "   ".to_string();
    app.input_mode = InputMode::Editing(0);
    app.confirm_edit();

    assert_eq!(app.todos.items[0].text, "Old text");
}

#[test]
fn test_refresh_filter() {
    let mut app = App::new(TodoList { items: vec![] });
    app.todos.items = vec![
        make_todo("apple", Priority::Medium, false, 1),
        make_todo("banana", Priority::Medium, false, 2),
        make_todo("cherry", Priority::Medium, false, 3),
    ];
    app.search_query = "a".to_string();
    app.refresh_filter();
    assert_eq!(app.filtered_indices.len(), 2);
}

#[test]
fn test_refresh_filter_no_match() {
    let mut app = App::new(TodoList { items: vec![] });
    app.todos.items = vec![
        make_todo("apple", Priority::Medium, false, 1),
        make_todo("banana", Priority::Medium, false, 2),
    ];
    app.search_query = "xyz".to_string();
    app.refresh_filter();
    assert!(app.filtered_indices.is_empty());
}

#[test]
fn test_move_selection() {
    let mut app = App::new(TodoList { items: vec![] });
    app.todos.items = vec![
        make_todo("A", Priority::Medium, false, 1),
        make_todo("B", Priority::Medium, false, 2),
        make_todo("C", Priority::Medium, false, 3),
    ];
    app.filtered_indices = vec![0, 1, 2];
    app.list_state.select(Some(1));

    app.move_selection(-1);
    assert_eq!(app.list_state.selected(), Some(0));
    app.move_selection(2);
    assert_eq!(app.list_state.selected(), Some(2));
    app.move_selection(1);
    assert_eq!(app.list_state.selected(), Some(2));
}

#[test]
fn test_move_selection_empty() {
    let mut app = App::new(TodoList { items: vec![] });
    app.move_selection(1);
    assert!(app.filtered_indices.is_empty());
}

#[test]
fn test_apply_search() {
    let mut app = App::new(TodoList { items: vec![] });
    app.todos.items = vec![
        make_todo("apple", Priority::Medium, false, 1),
        make_todo("banana", Priority::Medium, false, 2),
    ];
    app.input = "app".to_string();
    app.input_mode = InputMode::Searching;
    app.apply_search();

    assert_eq!(app.search_query, "app");
    assert_eq!(app.filtered_indices.len(), 1);
}

#[test]
fn test_app_new() {
    let app = App::new(TodoList { items: vec![] });
    assert!(app.todos.items.is_empty());
    assert!(app.should_quit == false);
    assert!(matches!(app.input_mode, InputMode::Normal));
    assert!(matches!(app.sort_mode, SortMode::Newest));
}

#[test]
fn test_app_new_with_initial_item() {
    // We can't easily test with a save file in unit tests,
    // but we can verify the App struct initialization
    let app = App::new(TodoList { items: vec![] });
    assert!(app.input.is_empty());
    assert!(app.search_query.is_empty());
}
