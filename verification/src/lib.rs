//! A keyboard-driven todo list: the data model, the search filter, the
//! sort orders and the key handling of a terminal todo application.
//!
//! The state of the application is an [`App`]; [`handle_key`] applies one
//! key to it and reports whether the todos changed and should be saved.
//! Every operation is specified over the mathematical view of the state
//! ([`AppView`]) by the spec functions of the `app` module.

pub mod app;
pub mod clock;
pub mod display;
pub mod laws;
pub mod model;
pub mod order;
pub mod text;

pub use app::{can_handle, handle_key, handle_key_at, selection_valid, App, AppView, InputMode, Key, ListSelection};
pub use display::{list_title, row_text, status_line, tag_badge};
pub use clock::{default_created_at, now_secs};
pub use model::{Priority, PriorityColor, SortMode, Todo, TodoList, TodoView};
