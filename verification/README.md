# advisory-inbox

Keeps a markdown inbox of security advisories and a JSON scan-state file in
step with the reports of an advisory-watching agent. Available as a command
line (`parse-report`, `dedup`, `append`, `migrate-state`, `state-backfill`,
`scan-and-append`, `serve`, `init`) and as an MCP server over stdio.

## Layout

- `src/` — the library, verified with Verus:
  - `text.rs`: character-level text model (`str::lines`, trimming, search, split);
  - `row.rs`: advisory rows, their table line and its parser;
  - `sentinel.rs`: the `INBOX_APPEND_START` / `INBOX_APPEND_END` block of a report;
  - `inbox.rs`: inserting rows under `## Rows`, counting open rows, reading rows back;
  - `seen.rs`: sorted, duplicate-free sets of advisory IDs;
  - `state.rs`: the scan-state model and its schema check;
  - `cli/`: what each subcommand computes, from plain values to plain values;
  - `mcp/`: the tool inputs and outputs, and the tools that need no file.
- `app/` — the program: argument parsing, files (atomic writes), JSON, the clock,
  the MCP transport.
- `tests/` — tests of the library on concrete documents.
