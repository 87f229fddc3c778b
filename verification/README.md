# dam

`dam` is a project-continuity tool: a reservoir (`.dam/`) holds seals of a
workspace, streams that branch them, releases and stable versions, and a
`dam.toml` that describes how a project is exported and imported.

This crate is written in Verus. The decisions `dam` makes are a verified
library; the command line around them is ordinary Rust.

## Layout

- `src/` — the verified library. Each module states its behaviour in
  `requires` / `ensures` contracts over mathematical models (`Seq`, `Map`,
  views of the data types) and proves it.
  - `text`, `order`, `version`, `digest`, `paths`: text handling, sorting,
    version comparison, SHA-256 hex digests, path arithmetic.
  - `settings`, `reservoir`, `session`, `terminal`: `config.toml` reading
    and writing, reservoir creation and upgrades, start-up checks, colors.
  - `stream`, `stable`, `releases`, `apply`, `sync`, `import`, `project`,
    `providers`: what each command decides.
  - `dam_toml`, `regenerate`: the `dam.toml` document as a table with
    distinct keys, and the edits `dam regenerate` makes to it.
  - `update`: when to check for updates and what to prompt.
  - `cli`: the parsed command line.
- `tests/` — tests of the library on concrete values.
- `app/` — the `dam` executable: argument parsing, the terminal, files,
  the network and processes, calling the library for every decision.

Laws that span several functions (for instance, that a setting written is
read back, or that a recorded hash is found again) are public proof
functions named `law_*` in the module they are about.
