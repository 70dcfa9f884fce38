# portside

The shared core of the freight suite of `cargo-*` tools: a small, tool-agnostic
model of a Cargo workspace built from `cargo metadata` output, and the suite's
terminal chrome. The library is written in Verus and its behaviour is proved.

- `src/raw.rs` — the fields of `cargo metadata` output that discovery reads.
- `src/metadata.rs` — the workspace model (`Workspace`, `Package`, `Target`,
  `Dependency`), how it is built from the raw metadata, lookups, the member
  graph and its transitive closure (`Workspace::linked_members`), and the
  arguments `cargo metadata` is run with.
- `src/paths.rs` — `Path::parent` and `Path::join` on paths held as text.
- `src/text.rs` — lossy UTF-8 decoding and trimming, taken from std.
- `src/error.rs` — why discovery failed, the message each failure renders as, and the
  verdict on a finished `cargo metadata` run.
- `src/chrome.rs` — palette, glyphs, spinner, brand line and log-console window.
- `app/` — running `cargo`, decoding JSON with serde, and building ratatui
  widgets from the chrome.
