# cc-switch

The logic of a desktop switch for Codex providers, written in Verus.

- `src/` is the library. Each function carries a contract that Verus proves; what the library
  promises beyond a single function is stated in proof functions whose names start with `law_`.
- `tests/` runs the library on concrete values, with the outside crates linked.
- `app/` is the program around it: the database, HTTP, web sockets, files and processes.

What is taken from `serde_json`, `toml_edit` and `indexmap` without proof stands in `src/json.rs`,
`src/toml.rs` and `src/aggregate.rs`, each item with what is claimed of it.
