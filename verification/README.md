# alvr_dashboard_core

Verified logic behind a few ALVR dashboard and build-tool helpers, written in
Verus.

- `src/text.rs` — character operations (trim, search, escape replacement) with
  specifications over `Seq<char>`.
- `src/env.rs` — the `.env` format: line splitting, line classification,
  value unquoting, and what the loader does with each entry.
- `src/language.rs` — translation tables read from JSON, the persisted
  language option, system locale detection, and the language state behind `tr`.
- `src/logs.rs` — the log tab: a bounded list of entries built from server
  events, with text search, severity filter and copy-out.
- `app/` — the process environment, the settings file, the global language
  state, and the egui drawing code that use the library.
