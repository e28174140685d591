//! The text that the screen shows: the title of the list with its counts,
//! the status line for the selected todo, and the text of each row.
use vstd::prelude::*;

use crate::app::{selected_item, selection_in_range, App, AppView};
use crate::model::{Todo, TodoView};
use crate::text::{join_tags, joined, string_push};

verus! {

/// The decimal digit for `d`, between 0 and 9.
pub open spec fn digit_char(d: int) -> char {
    if d == 0 {
        '0'
    } else if d == 1 {
        '1'
    } else if d == 2 {
        '2'
    } else if d == 3 {
        '3'
    } else if d == 4 {
        '4'
    } else if d == 5 {
        '5'
    } else if d == 6 {
        '6'
    } else if d == 7 {
        '7'
    } else if d == 8 {
        '8'
    } else {
        '9'
    }
}

/// The decimal notation of `n`, without leading zeros.
pub open spec fn decimal(n: nat) -> Seq<char>
    decreases n,
{
    if n < 10 {
        seq![digit_char(n as int)]
    } else {
        decimal(n / 10).push(digit_char((n % 10) as int))
    }
}

/// How many of the todos are done.
pub open spec fn done_count(items: Seq<TodoView>) -> nat
    decreases items.len(),
{
    if items.len() == 0 {
        0
    } else {
        done_count(items.drop_last()) + if items.last().done {
            1nat
        } else {
            0nat
        }
    }
}

/// The title of the list: done and total counts, and the number of visible
/// todos while a search is active.
pub open spec fn list_title_text(v: AppView) -> Seq<char> {
    " Todos ("@ + decimal(done_count(v.items)) + "/"@ + decimal(v.items.len()) + ") "@ + if v.query.len()
        == 0 {
        Seq::<char>::empty()
    } else {
        "filtered: "@ + decimal(v.filtered.len())
    }
}

/// The tags of a todo as the status line shows them; nothing when it has none.
pub open spec fn tag_suffix(tags: Seq<Seq<char>>) -> Seq<char> {
    if tags.len() == 0 {
        Seq::<char>::empty()
    } else {
        " | tags: ["@ + joined(tags, ", "@) + "]"@
    }
}

/// The status line: a hint when there are no todos; the text, priority,
/// state and tags of the selected visible todo; or nothing.
pub open spec fn status_text(v: AppView) -> Seq<char> {
    if v.items.len() == 0 {
        "No todos yet. Press 'n' to add one!"@
    } else {
        match selected_item(v) {
            Some(target) => {
                let t = v.items[target as int];
                "Selected: \""@ + t.text + "\" | "@ + t.priority.spec_label() + " | "@ + (if t.done {
                    "Done"@
                } else {
                    "Pending"@
                }) + tag_suffix(t.tags)
            },
            None => Seq::<char>::empty(),
        }
    }
}

/// The text of a todo's row: a check mark and the text struck through when
/// it is done, an empty box and the text otherwise.
pub open spec fn row_text_of(t: TodoView) -> Seq<char> {
    if t.done {
        "✓ ~~"@ + t.text + "~~"@
    } else {
        "☐ "@ + t.text
    }
}

/// The tags of a row, in brackets and followed by a space; nothing when the
/// todo has no tag.
pub open spec fn tag_badge_of(t: TodoView) -> Seq<char> {
    if t.tags.len() == 0 {
        Seq::<char>::empty()
    } else {
        "["@ + joined(t.tags, ", "@) + "] "@
    }
}

fn digit(d: usize) -> (c: char)
    requires
        d < 10,
    ensures
        c == digit_char(d as int),
{
    if d == 0 {
        '0'
    } else if d == 1 {
        '1'
    } else if d == 2 {
        '2'
    } else if d == 3 {
        '3'
    } else if d == 4 {
        '4'
    } else if d == 5 {
        '5'
    } else if d == 6 {
        '6'
    } else if d == 7 {
        '7'
    } else if d == 8 {
        '8'
    } else {
        '9'
    }
}

/// The decimal notation of `n`.
pub fn decimal_string(n: usize) -> (s: String)
    ensures
        s@ == decimal(n as nat),
    decreases n,
{
    if n < 10 {
        let mut s = String::new();
        string_push(&mut s, digit(n));
        proof {
            assert(s@ =~= seq![digit_char(n as int)]);
        }
        s
    } else {
        let mut s = decimal_string(n / 10);
        string_push(&mut s, digit(n % 10));
        s
    }
}

/// The number of todos that are done.
pub fn count_done(items: &Vec<Todo>) -> (c: usize)
    ensures
        c == done_count(items@.map_values(|t: Todo| t@)),
{
    let ghost views = items@.map_values(|t: Todo| t@);
    let mut c: usize = 0;
    let n = items.len();
    proof {
        assert(views.take(0) =~= Seq::<TodoView>::empty());
    }
    for i in 0..n
        invariant
            n == items@.len(),
            views == items@.map_values(|t: Todo| t@),
            c == done_count(views.take(i as int)),
            c <= i,
    {
        proof {
            assert(views.take(i + 1).drop_last() =~= views.take(i as int));
            assert(views.take(i + 1).last() == items@[i as int]@);
        }
        if items[i].done {
            c = c + 1;
        }
    }
    proof {
        assert(views.take(n as int) =~= views);
    }
    c
}

/// The title of the list (see [`list_title_text`]).
pub fn list_title(app: &App) -> (s: String)
    ensures
        s@ == list_title_text(app@),
{
    let done = count_done(&app.todos.items);
    let mut s = String::new();
    s.append(" Todos (");
    s.append(decimal_string(done).as_str());
    s.append("/");
    s.append(decimal_string(app.todos.items.len()).as_str());
    s.append(") ");
    if !app.search_query.as_str().is_empty() {
        s.append("filtered: ");
        s.append(decimal_string(app.filtered_indices.len()).as_str());
    }
    proof {
        assert(s@ =~= list_title_text(app@));
    }
    s
}

/// The tags of a todo as the status line shows them.
fn tag_suffix_string(tags: &Vec<String>) -> (s: String)
    ensures
        s@ == tag_suffix(tags.deep_view()),
{
    let mut s = String::new();
    if tags.len() > 0 {
        s.append(" | tags: [");
        s.append(join_tags(tags).as_str());
        s.append("]");
        proof {
            assert(s@ =~= tag_suffix(tags.deep_view()));
        }
    } else {
        proof {
            assert(s@ =~= tag_suffix(tags.deep_view()));
        }
    }
    s
}

/// The status line (see [`status_text`]).
pub fn status_line(app: &App) -> (s: String)
    requires
        selection_in_range(app@),
    ensures
        s@ == status_text(app@),
{
    let mut s = String::new();
    if app.todos.items.len() == 0 {
        s.append("No todos yet. Press 'n' to add one!");
        proof {
            assert(s@ =~= status_text(app@));
        }
        return s;
    }
    if let Some(fi) = app.list_state.selected() {
        if fi < app.filtered_indices.len() {
            let t = &app.todos.items[app.filtered_indices[fi]];
            s.append("Selected: \"");
            s.append(t.text.as_str());
            s.append("\" | ");
            s.append(t.priority.label());
            s.append(" | ");
            if t.done {
                s.append("Done");
            } else {
                s.append("Pending");
            }
            s.append(tag_suffix_string(&t.tags).as_str());
            proof {
                assert(s@ =~= status_text(app@));
            }
            return s;
        }
    }
    proof {
        assert(s@ =~= status_text(app@));
    }
    s
}

/// The text of a todo's row (see [`row_text_of`]).
pub fn row_text(t: &Todo) -> (s: String)
    ensures
        s@ == row_text_of(t@),
{
    let mut s = String::new();
    if t.done {
        s.append("✓ ~~");
        s.append(t.text.as_str());
        s.append("~~");
    } else {
        s.append("☐ ");
        s.append(t.text.as_str());
    }
    proof {
        assert(s@ =~= row_text_of(t@));
    }
    s
}

/// The tags of a row (see [`tag_badge_of`]).
pub fn tag_badge(t: &Todo) -> (s: String)
    ensures
        s@ == tag_badge_of(t@),
{
    let mut s = String::new();
    if t.tags.len() > 0 {
        s.append("[");
        s.append(join_tags(&t.tags).as_str());
        s.append("] ");
    }
    proof {
        assert(s@ =~= tag_badge_of(t@));
    }
    s
}

} // verus!
