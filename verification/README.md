# insights

Shared memory for coding agents: insights are small markdown files filed
under topics, searched before a task starts and corrected when stale, and
shared between machines through git.

This crate is written in Verus. Verus verifies every function in `src/`, and
the contracts of its public functions state what each returns or changes.
The few calls into `chrono`, `colored`, `url` and std that the library makes
go through small trusted wrappers whose contracts say what those crates
document.

## Layout

- `src/` — the verified library.
  - `insight_format`, `insight`, `round_trip`: the insight file (frontmatter,
    details, trailing metadata block), reading one back, and the law that a
    rendered file reads back as what was rendered.
  - `usage`, `migrate`: this machine's usage counters, recording accesses,
    adopting counters found in old files, and moving them out of the files.
  - `search`, `matching`, `ranking`, `highlight`, `wrap`: search options
    and date filters, exact term matching and exclusions, ranking and
    limits, colouring the terms in a result, and wrapping results for the
    terminal.
  - `listing`, `store_path`: where the store and its files live, and listing
    its topics and insights.
  - `git`, `sync_run`, `report`: reading git's output, the sync flows as a
    state machine (commit, pull with conflicts stopping the sync, push), and
    the report a sync prints.
  - `setup`, `wizard`: the setup questions and the installation plans for the
    agent rule and the shell shim.
  - `log_level`, `server_config`: the server's log level and address.
- `app/` — the I/O around the library: files, the usage file, running git,
  the terminal prompts, and the HTTP server.
- `tests/` — tests of the library on concrete values.
