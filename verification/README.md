# ralph_hats

Hat topology tooling: hats subscribe to event topics and publish others, and this library lists
them, shows them, validates how they fit together, and draws them as graphs. It also finds presets,
decides what a clean-up deletes, and reads the events that OpenCode prints.

- `src/` is the library. Every function states in its contract what it returns or writes, and Verus
  proves it. Text output goes to a `String`; files, the environment and processes are given as plain
  values.
- `app/` is the rest: the command line, files, the environment, backend processes and JSON output.
- `tests/` holds the tests.

What the proofs rest on without proof are calls into `serde_json` (`src/json.rs`) and two functions
of the standard library, `char::is_alphanumeric` (`src/graph.rs`) and `str::to_lowercase`
(`src/diagram.rs`). A doc comment at each of them says what is claimed.
