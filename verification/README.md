# rustwebapp

A full-stack employee directory with a shared counter: an Axum server over
Postgres and a Leptos front end. The logic both sides share is a library
verified with Verus.

- `src/api.rs` — the wire types (`ApiResponse`, `CounterState`, `Employee`),
  the replies the server owes for each outcome, and what the client reads back.
- `src/counter.rs` — the server's shared counter, the counter page state and
  the in-page counter.
- `src/data_page.rs` — the data page's state and how each action or server
  reply changes it, with the request it calls for.
- `src/table.rs` — filtering, stable sorting and editing of the employee rows.
- `src/edit.rs` — the edit dialog's form and its salary field.
- `src/format.rs` — salary, clock, row count and request path texts.
- `src/text.rs` — decimal rendering and parsing, text order, substring search.
- `src/theme.rs` — the day/night theme and how it is remembered.
- `app/` — the server program and the Leptos components, which call the
  library; serde forms of the wire types live in `app/wire.rs`.
- `tests/` — tests of the library on concrete values.
