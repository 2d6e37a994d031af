# poc

A polyglot build tool: it finds Rust, Go, TypeScript, C/C++, Python and Zig
projects under a directory, orders them by the dependencies their manifests
declare, builds them in groups (the projects of a group pairwise
independent, built in parallel, each group after the groups that hold what
its projects depend on), lints them, and can ask a language model to fix
what the tools report, keeping a fix only when the project's error count
drops.

## Layout

- `src/` is the verified library. Each function states in its contract what
  it returns, and Verus proves it.
  - `types.rs`: diagnostics, results, languages, projects.
  - `text.rs`: the text functions everything else is built on (lines, search,
    numbers, trimming), specified over `Seq<char>`.
  - `pattern.rs`, `json.rs`: the boundary to `regex` and `serde_json`.
  - `plugins/`: per language, the commands to run and how their output
    becomes build and lint results.
  - `orchestrator.rs`: the dependency table, build order (cycles detected),
    groups of pairwise independent projects, manifest dependencies, and the figures of
    the reports.
  - `walker.rs`: which directory entries are searched and which files are
    manifests; at most one project per directory.
  - `ai.rs`: context windows, unified diffs (context lines placed and
    checked), the fix session's bookkeeping,
    requests and replies of the model services.
  - `config.rs`: settings, their defaults, command-line overrides, the
    starting configuration file and its checks (through `toml`).
- `tests/` runs the library on concrete inputs.
- `app/` is the command-line program: argument parsing, the file system,
  processes, threads, HTTP and terminal output, all driven by the library.
