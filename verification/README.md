# codex-bridge

A Streamable HTTP MCP bridge for coding agents. Each conversation gets a project
of its own below one workspace; a bridge keeps its notes, plan, tasks and turns,
runs its commands in a sandbox, and writes down what was done.

The library in `src/` is verified with Verus. It decides; it does no I/O.

- `config` — settings, from the environment to a checked configuration
- `project`, `request_context` — who asks, and which project that is
- `storage` — bindings, turns, notes, plans and tasks, as rows
- `sandbox` — paths that stay inside a project, shells, containers, commands
- `server` — who is let in, which sessions stay, what is reported
- `audit` — events: scrubbed, bounded, queued, shown and filed
- `platform`, `runtime_environment` — what differs between machines
- `text`, `search`, `json`, `digest`, `encoding`, `ids`, `table`, `error` — what
  the others are built of

`app/` is the program around it: arguments, files, SQLite, processes and HTTP.
`tests/` runs the library on concrete values.
