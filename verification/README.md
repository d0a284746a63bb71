# doccrate-core

The verified core of DocCrate, a publisher of offline documentation packs.

- `src/engine.rs` — the pack builder as a state machine: it asks for the
  clones, the walk of the staging folder and the archive writes, and decides
  the outcome of a build. Its laws cover termination, failure reporting and
  the message of a successful build.
- `src/archive.rs` — listing, reading and searching a `.docpack` (a zip
  archive) held in memory, through the `zip` and `pulldown-cmark` crates.
- `src/render.rs` — a documentation page: Markdown rendered with
  `pulldown-cmark` inside the page template.
- `src/search_index.rs` — the JSON search index of a built project.
- `src/json.rs` — how `serde_json` quotes and escapes a string.
- `src/site.rs` — the master index, the index of one project, and how a
  source file becomes a page.
- `src/staging.rs` — the queue of staged sources and its JSON file, which
  reads back as the list that was written.
- `src/text.rs` — characters, numerals, paths and sorting.
- `app/` — the `doccrate` command line and the desktop commands, which do
  the file, process and network work and call the library for every
  decision.
