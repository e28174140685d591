use rust_todo::text::{chars_of, join_tags, parse_tags, trim_to_string};
use rust_todo::{default_created_at, handle_key, handle_key_at, now_secs};
use rust_todo::{App, InputMode, Key, ListSelection, Priority, SortMode, Todo, TodoList};

fn todo(text: &str, priority: Priority, created_at: u64, tags: &[&str]) -> Todo {
    Todo {
        text: text.to_string(),
        done: false,
        priority,
        created_at,
        tags: tags.iter().map(|t| t.to_string()).collect(),
    }
}

fn app_with(items: Vec<Todo>) -> App {
    App::new(TodoList { items })
}

fn visible_texts(app: &App) -> Vec<String> {
    app.filtered_indices.iter().map(|&i| app.todos.items[i].text.clone()).collect()
}

fn press(app: &mut App, key: Key) -> bool {
    handle_key_at(key, app, 500)
}

fn type_text(app: &mut App, text: &str) {
    for c in text.chars() {
        press(app, Key::Char(c));
    }
}

#[test]
fn new_app_lists_newest_first_and_selects_first() {
    let app = app_with(vec![
        todo("a", Priority::Low, 10, &[]),
        todo("b", Priority::Low, 30, &[]),
        todo("c", Priority::Low, 20, &[]),
    ]);
    assert_eq!(app.filtered_indices, vec![1, 2, 0]);
    assert_eq!(app.list_state.selected(), Some(0));
    assert!(matches!(app.sort_mode, SortMode::Newest));
}

#[test]
fn new_app_without_todos_selects_nothing() {
    let app = app_with(vec![]);
    assert_eq!(app.list_state.selected(), None);
    assert!(app.filtered_indices.is_empty());
}

#[test]
fn adding_trims_the_text() {
    let mut app = app_with(vec![]);
    app.input = "  write docs \t".to_string();
    app.input_mode = InputMode::Adding;
    assert!(app.add_todo_at(42));
    assert_eq!(app.todos.items[0].text, "write docs");
    assert_eq!(app.todos.items[0].created_at, 42);
    assert_eq!(app.list_state.selected(), Some(0));
    assert!(app.input.is_empty());
}

#[test]
fn adding_trims_unicode_white_space() {
    let mut app = app_with(vec![]);
    app.input = "\u{3000}x\u{a0}".to_string();
    app.add_todo_at(1);
    assert_eq!(app.todos.items[0].text, "x");
}

#[test]
fn adding_blank_input_changes_nothing() {
    let mut app = app_with(vec![todo("keep", Priority::High, 1, &[])]);
    app.input = " \n ".to_string();
    app.input_mode = InputMode::Adding;
    assert!(!app.add_todo_at(2));
    assert_eq!(app.todos.items.len(), 1);
    assert!(matches!(app.input_mode, InputMode::Normal));
}

#[test]
fn adding_with_a_search_that_hides_the_new_todo() {
    let mut app = app_with(vec![todo("apple", Priority::Low, 1, &[])]);
    app.search_query = "pear".to_string();
    app.refresh_filter();
    app.input = "banana".to_string();
    app.add_todo_at(2);
    assert!(app.filtered_indices.is_empty());
    assert_eq!(app.list_state.selected(), None);
}

#[test]
fn search_ignores_case() {
    let mut app = app_with(vec![
        todo("Apple pie", Priority::Low, 1, &[]),
        todo("banana", Priority::Low, 2, &[]),
    ]);
    app.input = "  APP ".to_string();
    app.input_mode = InputMode::Searching;
    app.apply_search();
    assert_eq!(app.search_query, "app");
    assert_eq!(app.filtered_indices, vec![0]);
    assert_eq!(app.list_state.selected(), Some(0));
}

#[test]
fn search_without_match_selects_nothing() {
    let mut app = app_with(vec![todo("banana", Priority::Low, 2, &[])]);
    app.input = "kiwi".to_string();
    app.apply_search();
    assert!(app.filtered_indices.is_empty());
    assert_eq!(app.list_state.selected(), None);
}

#[test]
fn clearing_the_search_shows_every_todo() {
    let mut app = app_with(vec![
        todo("one", Priority::Low, 1, &[]),
        todo("two", Priority::Low, 2, &[]),
    ]);
    press(&mut app, Key::Char('/'));
    type_text(&mut app, "one");
    press(&mut app, Key::Enter);
    assert_eq!(app.filtered_indices, vec![0]);
    press(&mut app, Key::Char('l'));
    assert_eq!(app.filtered_indices, vec![1, 0]);
    assert!(app.search_query.is_empty());
}

#[test]
fn escape_while_searching_clears_the_filter() {
    let mut app = app_with(vec![
        todo("one", Priority::Low, 1, &[]),
        todo("two", Priority::Low, 2, &[]),
    ]);
    app.search_query = "two".to_string();
    app.refresh_filter();
    press(&mut app, Key::Char('/'));
    type_text(&mut app, "x");
    press(&mut app, Key::Esc);
    assert!(matches!(app.input_mode, InputMode::Normal));
    assert!(app.input.is_empty());
    assert!(app.search_query.is_empty());
    assert_eq!(app.filtered_indices.len(), 2);
}

#[test]
fn typing_and_backspace_edit_the_input_line() {
    let mut app = app_with(vec![]);
    press(&mut app, Key::Char('n'));
    assert!(matches!(app.input_mode, InputMode::Adding));
    type_text(&mut app, "abc");
    press(&mut app, Key::Backspace);
    assert_eq!(app.input, "ab");
    press(&mut app, Key::Backspace);
    press(&mut app, Key::Backspace);
    press(&mut app, Key::Backspace);
    assert_eq!(app.input, "");
    type_text(&mut app, "milk");
    assert!(press(&mut app, Key::Enter));
    assert_eq!(app.todos.items[0].text, "milk");
    assert_eq!(app.todos.items[0].created_at, 500);
}

#[test]
fn escape_cancels_adding() {
    let mut app = app_with(vec![]);
    press(&mut app, Key::Char('n'));
    type_text(&mut app, "draft");
    assert!(!press(&mut app, Key::Esc));
    assert!(app.todos.items.is_empty());
    assert!(app.input.is_empty());
    assert!(matches!(app.input_mode, InputMode::Normal));
}

#[test]
fn quit_keys() {
    let mut app = app_with(vec![]);
    press(&mut app, Key::Char('q'));
    assert!(app.should_quit);
    let mut app = app_with(vec![]);
    press(&mut app, Key::Esc);
    assert!(app.should_quit);
}

#[test]
fn selection_is_clamped_to_the_list() {
    let mut app = app_with(vec![
        todo("a", Priority::Low, 3, &[]),
        todo("b", Priority::Low, 2, &[]),
    ]);
    press(&mut app, Key::Up);
    assert_eq!(app.list_state.selected(), Some(0));
    press(&mut app, Key::Down);
    press(&mut app, Key::Char('j'));
    press(&mut app, Key::Down);
    assert_eq!(app.list_state.selected(), Some(1));
    press(&mut app, Key::Char('k'));
    assert_eq!(app.list_state.selected(), Some(0));
}

#[test]
fn moving_without_selection_starts_at_the_top() {
    let mut app = app_with(vec![todo("a", Priority::Low, 3, &[]), todo("b", Priority::Low, 2, &[])]);
    app.list_state.select(None);
    app.move_selection(1);
    assert_eq!(app.list_state.selected(), Some(1));
}

#[test]
fn deleting_the_last_entry_moves_the_selection_up() {
    let mut app = app_with(vec![
        todo("a", Priority::Low, 3, &[]),
        todo("b", Priority::Low, 2, &[]),
    ]);
    app.list_state.select(Some(1));
    assert!(press(&mut app, Key::Delete));
    assert_eq!(app.todos.items.len(), 1);
    assert_eq!(app.todos.items[0].text, "a");
    assert_eq!(app.list_state.selected(), Some(0));
    assert!(press(&mut app, Key::Char('d')));
    assert!(app.todos.items.is_empty());
    assert_eq!(app.list_state.selected(), None);
    assert!(!press(&mut app, Key::Char('d')));
}

#[test]
fn toggling_twice_restores_done() {
    let mut app = app_with(vec![todo("a", Priority::Low, 3, &[])]);
    assert!(press(&mut app, Key::Char(' ')));
    assert!(app.todos.items[0].done);
    assert!(press(&mut app, Key::Char(' ')));
    assert!(!app.todos.items[0].done);
}

#[test]
fn nothing_selected_nothing_changed() {
    let mut app = app_with(vec![todo("a", Priority::Low, 3, &[])]);
    app.list_state.select(None);
    assert!(!app.toggle_done());
    assert!(!app.cycle_priority());
    assert!(!app.delete_todo());
    assert_eq!(app.todos.items.len(), 1);
}

#[test]
fn priority_cycles_through_three_levels() {
    let mut app = app_with(vec![todo("a", Priority::High, 3, &[])]);
    press(&mut app, Key::Char('p'));
    assert!(matches!(app.todos.items[0].priority, Priority::Low));
    press(&mut app, Key::Char('p'));
    press(&mut app, Key::Char('p'));
    assert!(matches!(app.todos.items[0].priority, Priority::High));
}

#[test]
fn editing_replaces_the_text() {
    let mut app = app_with(vec![todo("old", Priority::Low, 3, &[])]);
    press(&mut app, Key::Char('e'));
    assert!(matches!(app.input_mode, InputMode::Editing(0)));
    assert_eq!(app.input, "old");
    press(&mut app, Key::Backspace);
    type_text(&mut app, "ld ");
    assert!(press(&mut app, Key::Enter));
    assert_eq!(app.todos.items[0].text, "olld");
}

#[test]
fn editing_round_trip_keeps_the_text() {
    let mut app = app_with(vec![todo("same", Priority::Low, 3, &[])]);
    press(&mut app, Key::Enter);
    press(&mut app, Key::Enter);
    assert_eq!(app.todos.items[0].text, "same");
    assert!(matches!(app.input_mode, InputMode::Normal));
}

#[test]
fn tag_round_trip_keeps_the_tags() {
    let mut app = app_with(vec![todo("t", Priority::Low, 3, &["bug", "ui work", "v2"])]);
    press(&mut app, Key::Char('t'));
    assert_eq!(app.input, "bug, ui work, v2");
    assert!(press(&mut app, Key::Enter));
    assert_eq!(app.todos.items[0].tags, vec!["bug", "ui work", "v2"]);
}

#[test]
fn parse_tags_drops_empty_fields() {
    assert_eq!(parse_tags("a,,b ,  ,c"), vec!["a", "b", "c"]);
    assert!(parse_tags("").is_empty());
    assert_eq!(parse_tags("solo"), vec!["solo"]);
    assert_eq!(parse_tags(" x y ,"), vec!["x y"]);
}

#[test]
fn join_tags_separates_with_comma_space() {
    assert_eq!(join_tags(&vec!["a".to_string(), "b".to_string()]), "a, b");
    assert_eq!(join_tags(&vec![]), "");
}

#[test]
fn trim_and_chars() {
    assert_eq!(trim_to_string("  a b  "), "a b");
    assert_eq!(chars_of("héllo"), vec!['h', 'é', 'l', 'l', 'o']);
}

#[test]
fn sorts_are_stable() {
    let mut app = app_with(vec![
        todo("first", Priority::Medium, 5, &[]),
        todo("second", Priority::High, 5, &[]),
        todo("third", Priority::Medium, 5, &[]),
    ]);
    assert_eq!(visible_texts(&app), vec!["first", "second", "third"]);
    app.sort_mode = SortMode::Priority;
    app.sort_filtered();
    assert_eq!(visible_texts(&app), vec!["second", "first", "third"]);
}

#[test]
fn tag_sort_ignores_case() {
    let mut app = app_with(vec![
        todo("x", Priority::Low, 1, &["beta"]),
        todo("y", Priority::Low, 2, &["Alpha"]),
        todo("z", Priority::Low, 3, &["ALPHA", "zzz"]),
    ]);
    app.sort_mode = SortMode::Tag;
    app.filtered_indices = vec![0, 1, 2];
    app.sort_filtered();
    assert_eq!(visible_texts(&app), vec!["y", "z", "x"]);
}

#[test]
fn cycle_sort_reorders_and_selects_first() {
    let mut app = app_with(vec![
        todo("b", Priority::Low, 2, &[]),
        todo("a", Priority::Low, 1, &[]),
    ]);
    app.list_state.select(Some(1));
    press(&mut app, Key::Char('s'));
    assert!(matches!(app.sort_mode, SortMode::Oldest));
    assert_eq!(visible_texts(&app), vec!["a", "b"]);
    assert_eq!(app.list_state.selected(), Some(0));
    press(&mut app, Key::Char('s'));
    assert_eq!(visible_texts(&app), vec!["a", "b"]);
}

#[test]
fn handle_key_at_reports_changes() {
    let mut app = app_with(vec![todo("a", Priority::Low, 1, &[])]);
    let changed = handle_key_at(Key::Char(' '), &mut app, 0);
    assert!(changed);
    assert!(app.todos.items[0].done);
}

#[test]
fn handle_key_reads_the_clock_when_adding() {
    let mut app = app_with(vec![]);
    handle_key(Key::Char('n'), &mut app);
    handle_key(Key::Char('x'), &mut app);
    assert!(handle_key(Key::Enter, &mut app));
    assert!(app.todos.items[0].created_at >= 1_600_000_000);
}

#[test]
fn clock_reads_seconds_since_epoch() {
    let t = now_secs();
    assert!(t >= 1_600_000_000);
    assert!(default_created_at() >= t);
}

#[test]
fn list_selection_select_and_read() {
    let mut s = ListSelection::new();
    assert_eq!(s.selected(), None);
    s.select(Some(3));
    assert_eq!(s.selected(), Some(3));
}
