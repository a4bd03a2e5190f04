# cc_switch (verified core)

The logic of cc-switch's pi / pi-agent provider files, pi's MCP server table, the
pi-agent session-usage import, the WebDAV skills archive, the TUI update actions and
the S3 sync status event, written in Verus with contracts and proved.

Layout:

- `src/json.rs` — a JSON document model with a mathematical view; object lookup,
  set and remove, with read-after-write laws.
- `src/paths.rs` — `str::trim` and `Path::join` on text.
- `src/provider_document.rs`, `src/pi_config.rs`, `src/pi_agent_config.rs` — the
  `models.json` documents: directories, paths, provider CRUD and its roundtrip law.
- `src/mcp/pi.rs` — conversion of unified MCP specs to the standard format and the
  file action of each sync operation.
- `src/services/session_usage_pi_agent.rs` — parsing of session log lines,
  deduplication by message id, incremental scans, log rows and sync totals.
- `src/services/webdav_sync/archive.rs` — extraction limits, entry names, visited
  directories and archive errors.
- `src/cli/tui/runtime_actions/updates.rs` — the update check and download actions.
- `src/proxy/providers/auth.rs` — provider credentials and secret masking.
- `src/server_state.rs` — the S3 sync status event.
- `app/` — the file system, environment, SQLite, zip and channel work around the
  library (not verified).
- `tests/` — tests of the library.
