# peek

The suggestion engine of an inline shell autocompleter, as a verified
library, with the programs around it.

`src/` is the library, verified with Verus:

- `tools.rs` — the tools (pnpm, npm, yarn, bun, make, docker compose,
  cargo), how a command line names one (the longest trigger prefix wins),
  package-manager detection and the directory scan over a snapshot of the
  directory's tracked files.
- `manifests.rs` — the script sources: package.json `scripts`, Makefile
  targets with the first line of their recipe, compose services with
  their images.
- `fuzzy.rs` — ranking candidates by nucleo's fuzzy score.
- `cache.rs` — the per-directory cache, keyed by path components and fresh
  while the stamps of the tracked files (absent ones included) hold.
- `line_tracker.rs`, `dropdown.rs`, `tui.rs`, `session.rs` — the terminal
  side: the line being typed, the two dropdown renderers, and what each
  keystroke does.
- `suggest.rs`, `config.rs`, `protocol.rs`, `launch.rs`, `text.rs` —
  answering a request for suggestions, settings and paths, the request
  type, how the wrapper starts the shell, and text helpers with their
  specifications.

`app/` holds the `peek` command line, the `peekd` daemon (socket server,
file watcher, SQLite frecency history) and the `peek-tui` terminal wrapper.
They read files, sockets and terminals and hand plain values to the
library. `tests/` runs the library on concrete inputs.
