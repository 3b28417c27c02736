# brave-shields-cli

Read and write Brave Shields per-site settings, custom adblock filters and custom
scriptlets from the command line.

## Layout

- `src/` — the library, verified with Verus. Every command's decisions live here:
  - `json.rs`, `pointer.rs`: a model of JSON documents, member lookup and update, and
    JSON Pointer lookup.
  - `shields.rs`: the five shield settings, their command-line values and stored codes,
    domain patterns.
  - `preferences.rs`: the exceptions inside a Preferences document; the running-browser check.
  - `local_state.rs`, `profile.rs`: custom filters and profiles inside Local State.
  - `scriptlets.rs`: scriptlet names, the stored (base64) form and the list operations.
  - `commands/`: `get`, `set`, `reset`, `list`, `profiles`, `filters` and the `bisect`
    state machine.
  - `text.rs`, `text_order.rs`, `error.rs`, `output.rs`, `platform.rs`, `chromium_time.rs`:
    text helpers, ordering, error messages, output rows, data directories and timestamps.
- `app/` — the executable: argument parsing, reading and writing files (with locking,
  atomic replacement and backups), the LevelDB store, printing, and the interactive bisect
  prompts.
- `tests/` — tests of the library.

Each public function states what it returns in its `ensures`; the laws that relate several
operations (a value read back after it is written, a rule listed after it is added, a
bisect session that keeps the culprit rule, …) are public proof functions next to them.
