//! The application state and the operations that the keys trigger.
use vstd::prelude::*;

use crate::clock::now_secs;
use crate::model::{index_order, lemma_precedes_strict_weak, todo_precedes, Priority, SortMode, Todo, TodoList, TodoView};
use crate::order::{lemma_insert_by_at, lemma_stable_sort_multiset, stable_sort_by};
use crate::text::{string_pop, string_push, join_tags, joined, lower_contains, lowercase, matches_query, parse_tags, parsed_tags, str_trim, to_lowercase, trim_to_string, trimmed};

verus! {

broadcast use vstd::seq_lib::group_to_multiset_ensures;

/// Which entry of the visible list is highlighted, if any.
#[derive(Debug)]
pub struct ListSelection {
    selected: Option<usize>,
}

impl View for ListSelection {
    type V = Option<usize>;

    closed spec fn view(&self) -> Option<usize> {
        self.selected
    }
}

impl ListSelection {
    /// Nothing selected.
    pub fn new() -> (r: ListSelection)
        ensures
            r@ == None::<usize>,
    {
        ListSelection { selected: None }
    }

    /// Selects the entry at `index` of the visible list, or nothing.
    pub fn select(&mut self, index: Option<usize>)
        ensures
            final(self)@ == index,
    {
        self.selected = index;
    }

    /// The selected position in the visible list.
    pub fn selected(&self) -> (r: Option<usize>)
        ensures
            r == self@,
    {
        self.selected
    }
}

/// What the keys currently do: move and act on the list, or edit the input
/// line for a new todo, an edit of a todo, a search, or the tags of a todo.
/// `Editing` and `Tagging` name the todo by its position in the list of all todos.
#[derive(Clone, Copy, Debug, PartialEq, Eq, Structural)]
pub enum InputMode {
    Normal,
    Adding,
    Editing(usize),
    Searching,
    Tagging(usize),
}

/// The keys that the application tells apart.
#[derive(Clone, Copy, Debug, PartialEq, Eq, Structural)]
pub enum Key {
    Char(char),
    Esc,
    Enter,
    Backspace,
    Up,
    Down,
    Delete,
    Other,
}

/// The whole state of the application.
#[derive(Debug)]
pub struct App {
    pub todos: TodoList,
    pub list_state: ListSelection,
    /// The line being typed in the adding, editing, searching and tagging modes.
    pub input: String,
    pub input_mode: InputMode,
    /// The active search; empty when every todo is shown.
    pub search_query: String,
    /// The visible todos, as positions in `todos.items`, in display order.
    pub filtered_indices: Vec<usize>,
    pub sort_mode: SortMode,
    pub should_quit: bool,
}

/// The mathematical value of an [`App`].
pub struct AppView {
    pub items: Seq<TodoView>,
    pub selected: Option<usize>,
    pub input: Seq<char>,
    pub mode: InputMode,
    pub query: Seq<char>,
    pub filtered: Seq<usize>,
    pub sort_mode: SortMode,
    pub should_quit: bool,
}

impl View for App {
    type V = AppView;

    open spec fn view(&self) -> AppView {
        AppView {
            items: self.todos@,
            selected: self.list_state@,
            input: self.input@,
            mode: self.input_mode,
            query: self.search_query@,
            filtered: self.filtered_indices@,
            sort_mode: self.sort_mode,
            should_quit: self.should_quit,
        }
    }
}

/// The positions, in increasing order, of the first `n` todos whose text
/// contains the query, ignoring case.
pub open spec fn matching_upto(items: Seq<TodoView>, query: Seq<char>, n: nat) -> Seq<usize>
    decreases n,
{
    if n == 0 {
        Seq::empty()
    } else {
        let rest = matching_upto(items, query, (n - 1) as nat);
        if matches_query(items[n - 1].text, query) {
            rest.push((n - 1) as usize)
        } else {
            rest
        }
    }
}

/// The positions, in increasing order, of the todos whose text contains the
/// query, ignoring case.
pub open spec fn matching(items: Seq<TodoView>, query: Seq<char>) -> Seq<usize> {
    matching_upto(items, query, items.len())
}

/// The visible list reordered by the current sort mode.
pub open spec fn sorted_view(v: AppView) -> AppView {
    AppView { filtered: stable_sort_by(v.filtered, index_order(v.items, v.sort_mode)), ..v }
}

/// The visible list recomputed from the search and sorted.
pub open spec fn refreshed_view(v: AppView) -> AppView {
    AppView {
        filtered: stable_sort_by(matching(v.items, v.query), index_order(v.items, v.sort_mode)),
        ..v
    }
}

/// Every visible position names a todo.
pub open spec fn indices_in_range(v: AppView) -> bool {
    forall|i: int| 0 <= i < v.filtered.len() ==> #[trigger] v.filtered[i] < v.items.len()
}

/// The state in which the application starts on the given todos.
pub open spec fn initial_view(items: Seq<TodoView>) -> AppView {
    sorted_view(
        AppView {
            items: items,
            selected: if items.len() > 0 { Some(0usize) } else { None },
            input: Seq::empty(),
            mode: InputMode::Normal,
            query: Seq::empty(),
            filtered: Seq::new(items.len(), |i: int| i as usize),
            sort_mode: SortMode::Newest,
            should_quit: false,
        },
    )
}

pub proof fn lemma_matching_upto_bounds(items: Seq<TodoView>, query: Seq<char>, n: nat)
    ensures
        matching_upto(items, query, n).len() <= n,
        forall|k: int| 0 <= k < matching_upto(items, query, n).len() ==> #[trigger] matching_upto(items, query, n)[k] < n,
    decreases n,
{
    if n > 0 {
        lemma_matching_upto_bounds(items, query, (n - 1) as nat);
    }
}

/// The position in the list of all todos of the selected visible todo, if a
/// visible todo is selected.
pub open spec fn selected_item(v: AppView) -> Option<usize> {
    match v.selected {
        Some(fi) => if fi < v.filtered.len() {
            Some(v.filtered[fi as int])
        } else {
            None
        },
        None => None,
    }
}

/// The selected visible todo, if any, names a todo.
pub open spec fn selection_in_range(v: AppView) -> bool {
    selected_item(v) matches Some(target) ==> target < v.items.len()
}

/// The todo that the editing or tagging mode works on exists.
pub open spec fn mode_in_range(v: AppView) -> bool {
    match v.mode {
        InputMode::Editing(idx) => idx < v.items.len(),
        InputMode::Tagging(idx) => idx < v.items.len(),
        _ => true,
    }
}

/// Back to the normal mode with an empty input line.
pub open spec fn leave_input(v: AppView) -> AppView {
    AppView { input: Seq::empty(), mode: InputMode::Normal, ..v }
}

/// The first visible todo selected, when there is one.
pub open spec fn select_first(v: AppView) -> AppView {
    if v.filtered.len() > 0 {
        AppView { selected: Some(0usize), ..v }
    } else {
        v
    }
}

/// Adding the todo typed in the input line, created at time `now`; the last
/// visible entry is selected, or nothing when the search hides every todo.
/// The boolean tells whether the todos changed.
pub open spec fn add_todo_view(v: AppView, now: u64) -> (AppView, bool) {
    let text = trimmed(v.input);
    if text.len() > 0 {
        let r = refreshed_view(AppView { items: v.items.push(Todo::spec_fresh(text, now)), ..v });
        let n = r.filtered.len();
        (
            AppView {
                selected: if n > 0 { Some((n - 1) as usize) } else { None },
                ..leave_input(r)
            },
            true,
        )
    } else {
        (leave_input(v), false)
    }
}

/// Deleting the selected todo.
pub open spec fn delete_view(v: AppView) -> (AppView, bool) {
    match selected_item(v) {
        Some(target) => {
            let fi = v.selected->0;
            let r = refreshed_view(AppView { items: v.items.remove(target as int), ..v });
            let n = r.filtered.len();
            let sel = if n > 0 && fi >= n {
                Some((n - 1) as usize)
            } else if n == 0 {
                None
            } else {
                v.selected
            };
            (AppView { selected: sel, ..r }, true)
        },
        None => (v, false),
    }
}

/// Flipping the done mark of the selected todo.
pub open spec fn toggle_done_view(v: AppView) -> (AppView, bool) {
    match selected_item(v) {
        Some(target) => {
            let t = v.items[target as int];
            (AppView { items: v.items.update(target as int, TodoView { done: !t.done, ..t }), ..v }, true)
        },
        None => (v, false),
    }
}

/// Moving the selected todo to the next priority.
pub open spec fn cycle_priority_view(v: AppView) -> (AppView, bool) {
    match selected_item(v) {
        Some(target) => {
            let t = v.items[target as int];
            (
                AppView {
                    items: v.items.update(target as int, TodoView { priority: t.priority.spec_next(), ..t }),
                    ..v
                },
                true,
            )
        },
        None => (v, false),
    }
}

/// Storing the input line, trimmed, as the text of the todo being edited,
/// unless it is blank.
pub open spec fn confirm_edit_view(v: AppView) -> (AppView, bool) {
    match v.mode {
        InputMode::Editing(idx) => {
            let text = trimmed(v.input);
            if text.len() > 0 {
                let t = v.items[idx as int];
                (
                    AppView {
                        items: v.items.update(idx as int, TodoView { text: text, ..t }),
                        ..leave_input(v)
                    },
                    true,
                )
            } else {
                (leave_input(v), false)
            }
        },
        _ => (leave_input(v), false),
    }
}

/// Offering the tags of todo `target` for editing, joined with `", "`.
pub open spec fn start_tagging_view(v: AppView, target: usize) -> AppView {
    AppView {
        input: joined(v.items[target as int].tags, ", "@),
        mode: InputMode::Tagging(target),
        ..v
    }
}

/// Storing the tags written in the input line on the todo being tagged.
pub open spec fn confirm_tags_view(v: AppView) -> (AppView, bool) {
    match v.mode {
        InputMode::Tagging(idx) => {
            let t = v.items[idx as int];
            (
                AppView {
                    items: v.items.update(idx as int, TodoView { tags: parsed_tags(v.input), ..t }),
                    ..leave_input(v)
                },
                true,
            )
        },
        _ => (leave_input(v), false),
    }
}

/// Switching to the next sort mode.
pub open spec fn cycle_sort_view(v: AppView) -> AppView {
    select_first(sorted_view(AppView { sort_mode: v.sort_mode.spec_next(), ..v }))
}

/// Making the input line, trimmed and in lower case, the search.
pub open spec fn apply_search_view(v: AppView) -> AppView {
    let r = refreshed_view(
        AppView { query: lowercase(trimmed(v.input)), ..leave_input(v) },
    );
    AppView { selected: if r.filtered.len() > 0 { Some(0usize) } else { None }, ..r }
}

/// Dropping the search.
pub open spec fn clear_search_view(v: AppView) -> AppView {
    select_first(refreshed_view(AppView { query: Seq::empty(), ..v }))
}

/// Moving the selection by `delta` entries, within the visible list.
pub open spec fn move_view(v: AppView, delta: int) -> AppView {
    if v.filtered.len() == 0 {
        v
    } else {
        let cur: int = match v.selected {
            Some(s) => s as int,
            None => 0,
        };
        let target = cur + delta;
        let hi = v.filtered.len() - 1;
        let new = if target < 0 {
            0
        } else if target > hi {
            hi
        } else {
            target
        };
        AppView { selected: Some(new as usize), ..v }
    }
}

/// Starting to edit the selected todo, its text in the input line.
pub open spec fn begin_edit_view(v: AppView) -> AppView {
    match selected_item(v) {
        Some(target) => AppView {
            input: v.items[target as int].text,
            mode: InputMode::Editing(target),
            ..v
        },
        None => v,
    }
}

/// Starting to edit the tags of the selected todo.
pub open spec fn begin_tagging_view(v: AppView) -> AppView {
    match selected_item(v) {
        Some(target) => start_tagging_view(v, target),
        None => v,
    }
}

/// The input line after a character or a backspace.
pub open spec fn typed(input: Seq<char>, key: Key) -> Seq<char> {
    match key {
        Key::Char(c) => input.push(c),
        Key::Backspace => if input.len() > 0 {
            input.drop_last()
        } else {
            input
        },
        _ => input,
    }
}

/// What a key does in one of the modes that edit the input line: Esc
/// cancels, Enter confirms with `confirm`, characters and backspace edit.
pub open spec fn line_key(v: AppView, key: Key, confirmed: (AppView, bool)) -> (AppView, bool) {
    match key {
        Key::Esc => (leave_input(v), false),
        Key::Enter => confirmed,
        Key::Char(_) => (AppView { input: typed(v.input, key), ..v }, false),
        Key::Backspace => (AppView { input: typed(v.input, key), ..v }, false),
        _ => (v, false),
    }
}

/// What `key` does in state `v`, when the clock reads `now`: the new state,
/// and whether the todos changed and are to be saved.
pub open spec fn key_step(v: AppView, key: Key, now: u64) -> (AppView, bool) {
    match v.mode {
        InputMode::Normal => match key {
            Key::Char('q') | Key::Esc => (AppView { should_quit: true, ..v }, false),
            Key::Char('j') | Key::Down => (move_view(v, 1), false),
            Key::Char('k') | Key::Up => (move_view(v, -1), false),
            Key::Char('n') => (AppView { mode: InputMode::Adding, ..v }, false),
            Key::Char('d') | Key::Delete => delete_view(v),
            Key::Char(' ') => toggle_done_view(v),
            Key::Char('p') => cycle_priority_view(v),
            Key::Char('e') | Key::Enter => (begin_edit_view(v), false),
            Key::Char('/') => (AppView { mode: InputMode::Searching, input: Seq::empty(), ..v }, false),
            Key::Char('s') => (cycle_sort_view(v), false),
            Key::Char('t') => (begin_tagging_view(v), false),
            Key::Char('l') => (clear_search_view(v), false),
            _ => (v, false),
        },
        InputMode::Adding => line_key(v, key, add_todo_view(v, now)),
        InputMode::Editing(_) => line_key(v, key, confirm_edit_view(v)),
        InputMode::Searching => match key {
            Key::Esc => (
                AppView { mode: InputMode::Normal, ..clear_search_view(AppView { input: Seq::empty(), ..v }) },
                false,
            ),
            _ => line_key(v, key, (apply_search_view(v), false)),
        },
        InputMode::Tagging(_) => line_key(v, key, confirm_tags_view(v)),
    }
}

/// The invariant that the application keeps: the visible list names existing
/// todos, each at most once, and is no longer than the list of todos; the todo
/// being edited or tagged exists; the selection does not exceed the number of
/// todos.
pub open spec fn well_formed(v: AppView) -> bool {
    &&& indices_in_range(v)
    &&& v.filtered.no_duplicates()
    &&& mode_in_range(v)
    &&& v.filtered.len() <= v.items.len()
    &&& v.selected matches Some(s) ==> s <= v.items.len()
}

/// The `i32` arithmetic of moving the selection by `delta` stays in range: the
/// visible list has at most `i32::MAX` entries and, when it is not empty, the
/// selected position and its sum with `delta` fit in an `i32`.
pub open spec fn move_allowed(v: AppView, delta: int) -> bool {
    &&& v.filtered.len() <= i32::MAX
    &&& v.filtered.len() > 0 ==> ({
        let cur: int = match v.selected {
            Some(s) => s as int,
            None => 0,
        };
        cur <= i32::MAX && i32::MIN <= cur + delta <= i32::MAX
    })
}

/// What handling `key` in state `v` needs: the todos that the key reads or
/// changes exist, and the selection arithmetic fits in an `i32`.
pub open spec fn key_allowed(v: AppView, key: Key) -> bool {
    match v.mode {
        InputMode::Normal => match key {
            Key::Char('j') | Key::Down => move_allowed(v, 1),
            Key::Char('k') | Key::Up => move_allowed(v, -1),
            Key::Char('d') | Key::Delete | Key::Char(' ') | Key::Char('p') | Key::Char('e')
            | Key::Enter | Key::Char('t') => selection_in_range(v),
            Key::Char('s') => v.filtered.len() > 1 ==> indices_in_range(v),
            _ => true,
        },
        InputMode::Editing(idx) => key == Key::Enter ==> idx < v.items.len(),
        InputMode::Tagging(idx) => key == Key::Enter ==> idx < v.items.len(),
        _ => true,
    }
}

impl App {
    /// Reorders the visible list by the current sort mode; the sort is stable.
    pub fn sort_filtered(&mut self)
        requires
            old(self).filtered_indices@.len() > 1 ==> indices_in_range(old(self)@),
        ensures
            final(self)@ == sorted_view(old(self)@),
    {
        let ghost lt = index_order(self@.items, self.sort_mode);
        let ghost input = self.filtered_indices@;
        let n = self.filtered_indices.len();
        let mut out: Vec<usize> = Vec::new();
        proof {
            lemma_precedes_strict_weak(self@.items, self.sort_mode);
            assert(input.take(0) =~= Seq::<usize>::empty());
        }
        for i in 0..n
            invariant
                n == input.len(),
                input == self.filtered_indices@,
                lt == index_order(self@.items, self.sort_mode),
                n > 1 ==> indices_in_range(self@),
                out@ == stable_sort_by(input.take(i as int), lt),
        {
            let x = self.filtered_indices[i];
            proof {
                lemma_stable_sort_multiset(input.take(i as int), lt);
                assert(input.take(i + 1).drop_last() =~= input.take(i as int));
                assert(input.take(i + 1).last() == x);
                assert(out@.len() == i);
                if i > 0 {
                    assert(self@.filtered[i as int] < self@.items.len());
                    assert forall|k: int| 0 <= k < out@.len() implies #[trigger] out@[k] < self.todos.items@.len() by {
                        assert(out@.contains(out@[k]));
                        assert(input.take(i as int).to_multiset().count(out@[k]) > 0);
                        assert(input.take(i as int).contains(out@[k]));
                        let m = choose|m: int| 0 <= m < i && input.take(i as int)[m] == out@[k];
                        assert(self@.filtered[m] < self@.items.len());
                    }
                }
            }
            let mut j = out.len();
            while j > 0 && todo_precedes(self.sort_mode, &self.todos.items[x], &self.todos.items[out[j - 1]])
                invariant
                    j <= out@.len(),
                    n > 1 ==> indices_in_range(self@),
                    i < n,
                    n == input.len(),
                    x == input[i as int],
                    input == self.filtered_indices@,
                    lt == index_order(self@.items, self.sort_mode),
                    out@ == stable_sort_by(input.take(i as int), lt),
                    out@.to_multiset() == input.take(i as int).to_multiset(),
                    forall|k: int| j <= k < out@.len() ==> lt(x, #[trigger] out@[k]),
                    out@.len() > 0 ==> x < self.todos.items@.len(),
                    forall|k: int| 0 <= k < out@.len() ==> #[trigger] out@[k] < self.todos.items@.len(),
                decreases j,
            {
                j = j - 1;
            }
            proof {
                lemma_insert_by_at(out@, x, lt, j as int);
            }
            out.insert(j, x);
        }
        proof {
            assert(input.take(n as int) =~= input);
        }
        self.filtered_indices = out;
    }

    /// Recomputes the visible list: the todos whose text contains the search
    /// query, ignoring case, in the current sort order.
    pub fn refresh_filter(&mut self)
        ensures
            final(self)@ == refreshed_view(old(self)@),
            old(self)@.query.len() == 0 ==> forall|i: usize|
                i < final(self)@.items.len() ==> #[trigger] final(self)@.filtered.contains(i),
    {
        let q = to_lowercase(self.search_query.as_str());
        let n = self.todos.items.len();
        let mut found: Vec<usize> = Vec::new();
        for i in 0..n
            invariant
                n == self@.items.len(),
                q@ == lowercase(self@.query),
                found@ == matching_upto(self@.items, self@.query, i as nat),
        {
            if lower_contains(self.todos.items[i].text.as_str(), q.as_str()) {
                found.push(i);
            }
        }
        self.filtered_indices = found;
        proof {
            lemma_matching_upto_bounds(self@.items, self@.query, n as nat);
        }
        self.sort_filtered();
        proof {
            crate::laws::lemma_refresh_shows_matches(old(self)@);
            if old(self)@.query.len() == 0 {
                assert forall|i: usize| i < self@.items.len() implies #[trigger] self@.filtered.contains(i) by {
                    let l = lowercase(self@.items[i as int].text);
                    assert(l.subrange(0, 0) =~= lowercase(self@.query));
                    assert(matches_query(self@.items[i as int].text, self@.query));
                }
            }
        }
    }

    /// The application as it starts on the given todos: everything visible,
    /// newest first, the first entry selected.
    pub fn new(todos: TodoList) -> (app: App)
        ensures
            app@ == initial_view(todos@),
    {
        let n = todos.items.len();
        let mut list_state = ListSelection::new();
        if n > 0 {
            list_state.select(Some(0));
        }
        let mut filtered: Vec<usize> = Vec::new();
        for i in 0..n
            invariant
                filtered@ == Seq::new(i as nat, |k: int| k as usize),
        {
            filtered.push(i);
            proof {
                assert(filtered@ =~= Seq::new((i + 1) as nat, |k: int| k as usize));
            }
        }
        let mut app = App {
            todos: todos,
            list_state: list_state,
            input: String::new(),
            input_mode: InputMode::Normal,
            search_query: String::new(),
            filtered_indices: filtered,
            sort_mode: SortMode::Newest,
            should_quit: false,
        };
        let ghost before = app@;
        app.sort_filtered();
        proof {
            lemma_stable_sort_multiset(before.filtered, index_order(before.items, before.sort_mode));
        }
        if app.filtered_indices.len() > 0 {
            app.list_state.select(Some(0));
        }
        proof {
            assert(app@.input =~= Seq::<char>::empty());
            assert(app@.query =~= Seq::<char>::empty());
        }
        app
    }

    /// Adds the todo typed in the input line, created at time `now`, unless
    /// the line is blank, and returns to the normal mode. Returns whether the
    /// todos changed.
    pub fn add_todo_at(&mut self, now: u64) -> (changed: bool)
        ensures
            (final(self)@, changed) == add_todo_view(old(self)@, now),
    {
        let text = trim_to_string(self.input.as_str());
        let mut changed = false;
        if !text.as_str().is_empty() {
            let ghost old_items = self@.items;
            let todo = Todo {
                text: text,
                done: false,
                priority: Priority::Medium,
                created_at: now,
                tags: Vec::new(),
            };
            proof {
                assert(todo.tags.deep_view() =~= Seq::<Seq<char>>::empty());
            }
            self.todos.items.push(todo);
            proof {
                assert(self@.items =~= old_items.push(Todo::spec_fresh(trimmed(old(self)@.input), now)));
            }
            self.refresh_filter();
            let n = self.filtered_indices.len();
            if n > 0 {
                self.list_state.select(Some(n - 1));
            } else {
                self.list_state.select(None);
            }
            changed = true;
        }
        self.input = String::new();
        self.input_mode = InputMode::Normal;
        proof {
            assert(self@.input =~= Seq::<char>::empty());
        }
        changed
    }

    /// Adds the todo typed in the input line, created now, unless the line is
    /// blank, and returns to the normal mode. Returns whether the todos changed.
    pub fn add_todo(&mut self) -> (changed: bool)
        ensures
            exists|now: u64| (final(self)@, changed) == add_todo_view(old(self)@, now),
    {
        let now = now_secs();
        self.add_todo_at(now)
    }

    /// Deletes the selected todo, keeps the selection within the visible list,
    /// and returns whether a todo was deleted.
    pub fn delete_todo(&mut self) -> (changed: bool)
        requires
            selection_in_range(old(self)@),
        ensures
            (final(self)@, changed) == delete_view(old(self)@),
    {
        if let Some(fi) = self.list_state.selected() {
            if fi < self.filtered_indices.len() {
                let target = self.filtered_indices[fi];
                let ghost old_items = self@.items;
                self.todos.items.remove(target);
                proof {
                    assert(self@.items =~= old_items.remove(target as int));
                }
                self.refresh_filter();
                let n = self.filtered_indices.len();
                if n > 0 && fi >= n {
                    self.list_state.select(Some(n - 1));
                } else if n == 0 {
                    self.list_state.select(None);
                }
                return true;
            }
        }
        false
    }

    /// Flips the done mark of the selected todo; returns whether a todo changed.
    pub fn toggle_done(&mut self) -> (changed: bool)
        requires
            selection_in_range(old(self)@),
        ensures
            (final(self)@, changed) == toggle_done_view(old(self)@),
    {
        if let Some(fi) = self.list_state.selected() {
            if fi < self.filtered_indices.len() {
                let target = self.filtered_indices[fi];
                let ghost old_items = self@.items;
                let done = self.todos.items[target].done;
                self.todos.items[target].done = !done;
                proof {
                    let t = old_items[target as int];
                    assert(self@.items =~= old_items.update(target as int, TodoView { done: !t.done, ..t }));
                }
                return true;
            }
        }
        false
    }

    /// Moves the selected todo to the next priority; returns whether a todo changed.
    pub fn cycle_priority(&mut self) -> (changed: bool)
        requires
            selection_in_range(old(self)@),
        ensures
            (final(self)@, changed) == cycle_priority_view(old(self)@),
    {
        if let Some(fi) = self.list_state.selected() {
            if fi < self.filtered_indices.len() {
                let target = self.filtered_indices[fi];
                let ghost old_items = self@.items;
                let next = self.todos.items[target].priority.next();
                self.todos.items[target].priority = next;
                proof {
                    let t = old_items[target as int];
                    assert(self@.items =~= old_items.update(target as int, TodoView { priority: t.priority.spec_next(), ..t }));
                }
                return true;
            }
        }
        false
    }

    /// Stores the input line, trimmed, as the text of the todo being edited
    /// unless it is blank, and returns to the normal mode. Returns whether a
    /// todo changed.
    pub fn confirm_edit(&mut self) -> (changed: bool)
        requires
            old(self)@.mode matches InputMode::Editing(idx) ==> idx < old(self)@.items.len(),
        ensures
            (final(self)@, changed) == confirm_edit_view(old(self)@),
    {
        let mut changed = false;
        if let InputMode::Editing(idx) = self.input_mode {
            let text = trim_to_string(self.input.as_str());
            if !text.as_str().is_empty() {
                let ghost old_items = self@.items;
                self.todos.items[idx].text = text;
                proof {
                    let t = old_items[idx as int];
                    assert(self@.items =~= old_items.update(idx as int, TodoView { text: trimmed(old(self)@.input), ..t }));
                }
                changed = true;
            }
        }
        self.input = String::new();
        self.input_mode = InputMode::Normal;
        proof {
            assert(self@.input =~= Seq::<char>::empty());
        }
        changed
    }

    /// Puts the tags of todo `target` in the input line, joined with `", "`,
    /// and starts editing them.
    pub fn start_tagging(&mut self, target: usize)
        requires
            target < old(self)@.items.len(),
        ensures
            final(self)@ == start_tagging_view(old(self)@, target),
    {
        self.input = join_tags(&self.todos.items[target].tags);
        self.input_mode = InputMode::Tagging(target);
    }

    /// Stores the tags written in the input line on the todo being tagged and
    /// returns to the normal mode. Returns whether a todo changed.
    pub fn confirm_tags(&mut self) -> (changed: bool)
        requires
            old(self)@.mode matches InputMode::Tagging(idx) ==> idx < old(self)@.items.len(),
        ensures
            (final(self)@, changed) == confirm_tags_view(old(self)@),
    {
        let mut changed = false;
        if let InputMode::Tagging(idx) = self.input_mode {
            let tags = parse_tags(self.input.as_str());
            let ghost old_items = self@.items;
            self.todos.items[idx].tags = tags;
            proof {
                let t = old_items[idx as int];
                assert(self@.items =~= old_items.update(idx as int, TodoView { tags: parsed_tags(old(self)@.input), ..t }));
            }
            changed = true;
        }
        self.input = String::new();
        self.input_mode = InputMode::Normal;
        proof {
            assert(self@.input =~= Seq::<char>::empty());
        }
        changed
    }

    /// Switches to the next sort mode, reorders, and selects the first entry.
    pub fn cycle_sort(&mut self)
        requires
            old(self).filtered_indices@.len() > 1 ==> indices_in_range(old(self)@),
        ensures
            final(self)@ == cycle_sort_view(old(self)@),
    {
        self.sort_mode = self.sort_mode.next();
        self.sort_filtered();
        if self.filtered_indices.len() > 0 {
            self.list_state.select(Some(0));
        }
    }

    /// Makes the input line, trimmed and in lower case, the search, returns to
    /// the normal mode and selects the first match, if any.
    pub fn apply_search(&mut self)
        ensures
            final(self)@ == apply_search_view(old(self)@),
    {
        let q = to_lowercase(str_trim(self.input.as_str()));
        self.search_query = q;
        self.input = String::new();
        self.input_mode = InputMode::Normal;
        self.refresh_filter();
        if self.filtered_indices.len() > 0 {
            self.list_state.select(Some(0));
        } else {
            self.list_state.select(None);
        }
        proof {
            assert(final(self)@ =~= apply_search_view(old(self)@)) by {
                assert(self@.input =~= Seq::<char>::empty());
            }
        }
    }

    /// Moves the selection by `delta` entries, staying within the visible list.
    pub fn move_selection(&mut self, delta: i32)
        requires
            move_allowed(old(self)@, delta as int),
        ensures
            final(self)@ == move_view(old(self)@, delta as int),
    {
        if self.filtered_indices.len() == 0 {
            return;
        }
        let current = match self.list_state.selected() {
            Some(s) => s,
            None => 0,
        };
        let hi = self.filtered_indices.len() as i32 - 1;
        let target = current as i32 + delta;
        let new = if target < 0 {
            0
        } else if target > hi {
            hi
        } else {
            target
        };
        self.list_state.select(Some(new as usize));
    }
}


/// Handles one key, the clock reading `now`; returns whether the todos
/// changed and are to be saved. Clearing the search (`l`, or Esc while
/// searching) shows every todo again.
pub fn handle_key_at(key: Key, app: &mut App, now: u64) -> (changed: bool)
    requires
        key_allowed(old(app)@, key),
    ensures
        (final(app)@, changed) == key_step(old(app)@, key, now),
        ((old(app)@.mode == InputMode::Normal && key == Key::Char('l')) || (old(app)@.mode
            == InputMode::Searching && key == Key::Esc)) ==> forall|i: usize|
            i < final(app)@.items.len() ==> #[trigger] final(app)@.filtered.contains(i),
{
    match app.input_mode {
        InputMode::Normal => match key {
            Key::Char('q') | Key::Esc => {
                app.should_quit = true;
                false
            },
            Key::Char('j') | Key::Down => {
                app.move_selection(1);
                false
            },
            Key::Char('k') | Key::Up => {
                app.move_selection(-1);
                false
            },
            Key::Char('n') => {
                app.input_mode = InputMode::Adding;
                false
            },
            Key::Char('d') | Key::Delete => app.delete_todo(),
            Key::Char(' ') => app.toggle_done(),
            Key::Char('p') => app.cycle_priority(),
            Key::Char('e') | Key::Enter => {
                if let Some(fi) = app.list_state.selected() {
                    if fi < app.filtered_indices.len() {
                        let target = app.filtered_indices[fi];
                        app.input = app.todos.items[target].text.clone();
                        app.input_mode = InputMode::Editing(target);
                    }
                }
                false
            },
            Key::Char('/') => {
                app.input_mode = InputMode::Searching;
                app.input = String::new();
                proof {
                    assert(app@.input =~= Seq::<char>::empty());
                }
                false
            },
            Key::Char('s') => {
                app.cycle_sort();
                false
            },
            Key::Char('t') => {
                if let Some(fi) = app.list_state.selected() {
                    if fi < app.filtered_indices.len() {
                        let target = app.filtered_indices[fi];
                        app.start_tagging(target);
                    }
                }
                false
            },
            Key::Char('l') => {
                app.search_query = String::new();
                app.refresh_filter();
                if app.filtered_indices.len() > 0 {
                    app.list_state.select(Some(0));
                }
                proof {
                    assert(final(app)@ =~= clear_search_view(old(app)@));
                }
                false
            },
            _ => false,
        },
        InputMode::Adding => match key {
            Key::Enter => app.add_todo_at(now),
            _ => {
                edit_line(key, app);
                false
            },
        },
        InputMode::Editing(_) => match key {
            Key::Enter => app.confirm_edit(),
            _ => {
                edit_line(key, app);
                false
            },
        },
        InputMode::Searching => match key {
            Key::Esc => {
                app.input = String::new();
                app.search_query = String::new();
                app.refresh_filter();
                if app.filtered_indices.len() > 0 {
                    app.list_state.select(Some(0));
                }
                app.input_mode = InputMode::Normal;
                proof {
                    assert(app@.input =~= Seq::<char>::empty());
                    assert(final(app)@ =~= key_step(old(app)@, key, now).0);
                }
                false
            },
            Key::Enter => {
                app.apply_search();
                false
            },
            _ => {
                edit_line(key, app);
                false
            },
        },
        InputMode::Tagging(_) => match key {
            Key::Enter => app.confirm_tags(),
            _ => {
                edit_line(key, app);
                false
            },
        },
    }
}

/// Esc, characters and backspace in the modes that edit the input line.
fn edit_line(key: Key, app: &mut App)
    requires
        key != Key::Enter,
    ensures
        final(app)@ == line_key(old(app)@, key, (old(app)@, false)).0,
{
    match key {
        Key::Esc => {
            app.input = String::new();
            app.input_mode = InputMode::Normal;
            proof {
                assert(app@.input =~= Seq::<char>::empty());
            }
        },
        Key::Char(c) => string_push(&mut app.input, c),
        Key::Backspace => {
            string_pop(&mut app.input);
        },
        _ => {},
    }
}

/// Handles one key, reading the clock when a todo is added; returns whether
/// the todos changed and are to be saved.
pub fn handle_key(key: Key, app: &mut App) -> (changed: bool)
    requires
        key_allowed(old(app)@, key),
    ensures
        exists|now: u64| (final(app)@, changed) == key_step(old(app)@, key, now),
        ((old(app)@.mode == InputMode::Normal && key == Key::Char('l')) || (old(app)@.mode
            == InputMode::Searching && key == Key::Esc)) ==> forall|i: usize|
            i < final(app)@.items.len() ==> #[trigger] final(app)@.filtered.contains(i),
{
    let now = if app.input_mode == InputMode::Adding && key == Key::Enter {
        now_secs()
    } else {
        0
    };
    handle_key_at(key, app, now)
}


/// Whether the selected visible todo, if any, exists.
pub fn selection_valid(app: &App) -> (r: bool)
    ensures
        r == selection_in_range(app@),
{
    match app.list_state.selected() {
        Some(fi) => if fi < app.filtered_indices.len() {
            app.filtered_indices[fi] < app.todos.items.len()
        } else {
            true
        },
        None => true,
    }
}

/// Whether every visible entry names an existing todo.
fn indices_valid(app: &App) -> (r: bool)
    ensures
        r == indices_in_range(app@),
{
    let n = app.filtered_indices.len();
    for i in 0..n
        invariant
            n == app@.filtered.len(),
            forall|k: int| 0 <= k < i ==> #[trigger] app@.filtered[k] < app@.items.len(),
    {
        if app.filtered_indices[i] >= app.todos.items.len() {
            return false;
        }
    }
    true
}

/// Whether moving the selection by `delta` keeps its arithmetic in range.
fn move_valid(app: &App, delta: i32) -> (r: bool)
    ensures
        r == move_allowed(app@, delta as int),
{
    let n = app.filtered_indices.len();
    if n > 2147483647usize {
        return false;
    }
    if n == 0 {
        return true;
    }
    let cur = match app.list_state.selected() {
        Some(s) => s,
        None => 0,
    };
    if cur > 2147483647usize {
        return false;
    }
    let sum: i64 = cur as i64 + delta as i64;
    -2147483648i64 <= sum && sum <= 2147483647i64
}

/// Whether `key` can be handled in the current state (see [`key_allowed`]).
pub fn can_handle(key: Key, app: &App) -> (r: bool)
    ensures
        r == key_allowed(app@, key),
{
    match app.input_mode {
        InputMode::Normal => match key {
            Key::Char('j') | Key::Down => move_valid(app, 1),
            Key::Char('k') | Key::Up => move_valid(app, -1),
            Key::Char('d') | Key::Delete | Key::Char(' ') | Key::Char('p') | Key::Char('e')
            | Key::Enter | Key::Char('t') => selection_valid(app),
            Key::Char('s') => app.filtered_indices.len() <= 1 || indices_valid(app),
            _ => true,
        },
        InputMode::Editing(idx) => key != Key::Enter || idx < app.todos.items.len(),
        InputMode::Tagging(idx) => key != Key::Enter || idx < app.todos.items.len(),
        _ => true,
    }
}

} // verus!
