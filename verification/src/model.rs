use vstd::prelude::*;
use vstd::slice::slice_to_vec;

use crate::order::strict_weak_order;
use crate::text::{bytes_less, bytes_lt, folded_key, lemma_bytes_lt_irreflexive, lemma_bytes_lt_total, lemma_bytes_lt_transitive, to_lowercase};

verus! {

/// How urgent a todo is.
#[derive(Clone, Copy, Debug, PartialEq, Eq, Structural)]
pub enum Priority {
    High,
    Medium,
    Low,
}

/// The colour in which a priority is shown.
#[derive(Clone, Copy, Debug, PartialEq, Eq, Structural)]
pub enum PriorityColor {
    Red,
    Yellow,
    Green,
}

/// The order in which the visible todos are listed.
#[derive(Clone, Copy, Debug, PartialEq, Eq, Structural)]
pub enum SortMode {
    Priority,
    Newest,
    Oldest,
    Alpha,
    Tag,
}

impl Priority {
    /// The priority that follows `self` when the user cycles: Low, Medium, High, Low.
    pub open spec fn spec_next(self) -> Priority {
        match self {
            Priority::Low => Priority::Medium,
            Priority::Medium => Priority::High,
            Priority::High => Priority::Low,
        }
    }

    /// Position of the priority in the priority sort order (High first).
    pub open spec fn rank(self) -> int {
        match self {
            Priority::High => 0,
            Priority::Medium => 1,
            Priority::Low => 2,
        }
    }

    pub fn next(&self) -> (r: Priority)
        ensures
            r == self.spec_next(),
    {
        match self {
            Priority::Low => Priority::Medium,
            Priority::Medium => Priority::High,
            Priority::High => Priority::Low,
        }
    }

    pub fn color(&self) -> (r: PriorityColor)
        ensures
            r == match self {
                Priority::High => PriorityColor::Red,
                Priority::Medium => PriorityColor::Yellow,
                Priority::Low => PriorityColor::Green,
            },
    {
        match self {
            Priority::High => PriorityColor::Red,
            Priority::Medium => PriorityColor::Yellow,
            Priority::Low => PriorityColor::Green,
        }
    }

    /// The four-character label of the priority.
    pub open spec fn spec_label(self) -> Seq<char> {
        match self {
            Priority::High => "HIGH"@,
            Priority::Medium => "MED "@,
            Priority::Low => "LOW "@,
        }
    }

    /// A four-character label for the priority.
    pub fn label(&self) -> (r: &str)
        ensures
            r@ == self.spec_label(),
    {
        match self {
            Priority::High => "HIGH",
            Priority::Medium => "MED ",
            Priority::Low => "LOW ",
        }
    }
}

impl SortMode {
    /// The sort mode that follows `self` when the user cycles:
    /// Priority, Newest, Oldest, Alpha, Tag, Priority.
    pub open spec fn spec_next(self) -> SortMode {
        match self {
            SortMode::Priority => SortMode::Newest,
            SortMode::Newest => SortMode::Oldest,
            SortMode::Oldest => SortMode::Alpha,
            SortMode::Alpha => SortMode::Tag,
            SortMode::Tag => SortMode::Priority,
        }
    }

    pub fn next(&self) -> (r: SortMode)
        ensures
            r == self.spec_next(),
    {
        match self {
            SortMode::Priority => SortMode::Newest,
            SortMode::Newest => SortMode::Oldest,
            SortMode::Oldest => SortMode::Alpha,
            SortMode::Alpha => SortMode::Tag,
            SortMode::Tag => SortMode::Priority,
        }
    }

    /// A three-character label for the sort mode.
    pub fn label(&self) -> (r: &str)
        ensures
            r@ == match self {
                SortMode::Priority => "PRI"@,
                SortMode::Newest => "NEW"@,
                SortMode::Oldest => "OLD"@,
                SortMode::Alpha => "A-Z"@,
                SortMode::Tag => "TAG"@,
            },
    {
        match self {
            SortMode::Priority => "PRI",
            SortMode::Newest => "NEW",
            SortMode::Oldest => "OLD",
            SortMode::Alpha => "A-Z",
            SortMode::Tag => "TAG",
        }
    }
}


/// One entry of the todo list.
#[derive(Debug)]
pub struct Todo {
    pub text: String,
    pub done: bool,
    pub priority: Priority,
    /// Creation time, in seconds since the Unix epoch.
    pub created_at: u64,
    pub tags: Vec<String>,
}

/// The mathematical value of a [`Todo`].
pub struct TodoView {
    pub text: Seq<char>,
    pub done: bool,
    pub priority: Priority,
    pub created_at: u64,
    pub tags: Seq<Seq<char>>,
}

impl View for Todo {
    type V = TodoView;

    open spec fn view(&self) -> TodoView {
        TodoView {
            text: self.text@,
            done: self.done,
            priority: self.priority,
            created_at: self.created_at,
            tags: self.tags.deep_view(),
        }
    }
}

/// The todos, in the order in which they were added.
#[derive(Debug)]
pub struct TodoList {
    pub items: Vec<Todo>,
}

impl View for TodoList {
    type V = Seq<TodoView>;

    open spec fn view(&self) -> Seq<TodoView> {
        self.items@.map_values(|t: Todo| t@)
    }
}

impl Todo {
    /// A fresh todo: not done, of medium priority, without tags.
    pub open spec fn spec_fresh(text: Seq<char>, created_at: u64) -> TodoView {
        TodoView {
            text: text,
            done: false,
            priority: Priority::Medium,
            created_at: created_at,
            tags: Seq::empty(),
        }
    }
}

/// The key by which the tag sort orders a todo: its first tag in lower case,
/// or the empty string when it has no tag.
pub open spec fn tag_key(t: TodoView) -> Seq<u8> {
    if t.tags.len() > 0 {
        folded_key(t.tags[0])
    } else {
        Seq::empty()
    }
}

/// Whether `x` goes before `y` in the list sorted by `mode`: high priority
/// first; newest first; oldest first; by text, ignoring case; by first tag,
/// ignoring case, untagged todos first.
pub open spec fn precedes(mode: SortMode, x: TodoView, y: TodoView) -> bool {
    match mode {
        SortMode::Priority => x.priority.rank() < y.priority.rank(),
        SortMode::Newest => x.created_at > y.created_at,
        SortMode::Oldest => x.created_at < y.created_at,
        SortMode::Alpha => bytes_lt(folded_key(x.text), folded_key(y.text)),
        SortMode::Tag => bytes_lt(tag_key(x), tag_key(y)),
    }
}

/// The order on item indices induced by [`precedes`] on the items they name.
pub open spec fn index_order(items: Seq<TodoView>, mode: SortMode) -> spec_fn(usize, usize) -> bool {
    |a: usize, b: usize| precedes(mode, items[a as int], items[b as int])
}

proof fn lemma_bytes_strict_weak(a: Seq<u8>, b: Seq<u8>, c: Seq<u8>)
    ensures
        !bytes_lt(a, a),
        bytes_lt(a, b) && bytes_lt(b, c) ==> bytes_lt(a, c),
        bytes_lt(a, c) ==> bytes_lt(a, b) || bytes_lt(b, c),
{
    lemma_bytes_lt_irreflexive(a);
    if bytes_lt(a, b) && bytes_lt(b, c) {
        lemma_bytes_lt_transitive(a, b, c);
    }
    if bytes_lt(a, c) && !bytes_lt(a, b) && !bytes_lt(b, c) {
        if a != b {
            lemma_bytes_lt_total(a, b);
        }
        if b != c {
            lemma_bytes_lt_total(b, c);
        }
        if a == b {
        } else if b == c {
        } else {
            lemma_bytes_lt_transitive(c, b, a);
            lemma_bytes_lt_transitive(a, c, a);
            lemma_bytes_lt_irreflexive(a);
        }
    }
}

/// Every sort mode orders the items by a strict weak order.
pub proof fn lemma_precedes_strict_weak(items: Seq<TodoView>, mode: SortMode)
    ensures
        strict_weak_order(index_order(items, mode)),
{
    let lt = index_order(items, mode);
    assert forall|a: usize, b: usize, c: usize|
        (#[trigger] lt(a, b) && #[trigger] lt(b, c) ==> lt(a, c)) && (lt(a, c) ==> lt(a, b)
            || lt(b, c)) && !lt(a, a) by {
        let (x, y, z) = (items[a as int], items[b as int], items[c as int]);
        match mode {
            SortMode::Alpha => lemma_bytes_strict_weak(folded_key(x.text), folded_key(y.text), folded_key(z.text)),
            SortMode::Tag => lemma_bytes_strict_weak(tag_key(x), tag_key(y), tag_key(z)),
            _ => {},
        }
    }
    assert forall|a: usize| !#[trigger] lt(a, a) by {
        let x = items[a as int];
        match mode {
            SortMode::Alpha => lemma_bytes_strict_weak(folded_key(x.text), folded_key(x.text), folded_key(x.text)),
            SortMode::Tag => lemma_bytes_strict_weak(tag_key(x), tag_key(x), tag_key(x)),
            _ => {},
        }
    }
}

/// The key of the tag sort, as bytes.
fn tag_key_bytes(t: &Todo) -> (k: Vec<u8>)
    ensures
        k@ == tag_key(t@),
{
    if t.tags.len() > 0 {
        let l = to_lowercase(t.tags[0].as_str());
        slice_to_vec(l.as_str().as_bytes())
    } else {
        Vec::new()
    }
}

/// Whether `x` goes before `y` in the list sorted by `mode`.
pub fn todo_precedes(mode: SortMode, x: &Todo, y: &Todo) -> (r: bool)
    ensures
        r == precedes(mode, x@, y@),
{
    match mode {
        SortMode::Priority => {
            let rx: u8 = match x.priority { Priority::High => 0, Priority::Medium => 1, Priority::Low => 2 };
            let ry: u8 = match y.priority { Priority::High => 0, Priority::Medium => 1, Priority::Low => 2 };
            rx < ry
        },
        SortMode::Newest => x.created_at > y.created_at,
        SortMode::Oldest => x.created_at < y.created_at,
        SortMode::Alpha => crate::text::folded_less(x.text.as_str(), y.text.as_str()),
        SortMode::Tag => {
            let kx = tag_key_bytes(x);
            let ky = tag_key_bytes(y);
            bytes_less(kx.as_slice(), ky.as_slice())
        },
    }
}

} // verus!
