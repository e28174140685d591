# rust_todo

A keyboard-driven terminal todo list, written as a Verus-verified library
(`src/`) and a thin terminal front end (`app/`).

## Layout

- `src/model.rs` — priorities, sort modes, todos, and the order in which each
  sort mode lists todos.
- `src/text.rs` — trimming, case-insensitive search, the comma separated tag
  line (parsing and joining) and byte-wise string order.
- `src/order.rs` — a stable insertion sort specified for any strict weak
  order, with proofs that it permutes, orders and keeps ties in input order.
- `src/app.rs` — the application state (`App`), its mathematical view
  (`AppView`), one spec function per operation, and `handle_key`, whose
  contract is the transition function `key_step`.
- `src/laws.rs` — properties of the whole application: well-formedness is
  kept by every key, the search shows exactly the matching todos, each sort
  mode orders the list, tags and texts survive an unchanged edit, and every
  change to the todos is reported for saving.
- `src/display.rs` — the text the screen shows: the list title with its
  counts, the status line of the selected todo, and each row's text.
- `src/clock.rs` — the wall clock for creation times.
- `app/` — terminal drawing of that text (ratatui, crossterm) and persistence in
  `todos.json` (serde, serde_json).

Key handling returns whether the todos changed; the front end saves them
whenever it does.
