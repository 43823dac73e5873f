# antigravity

Configuration, MCP synchronisation and session-history logic for the
Antigravity CLI (`agy`), written in Verus: the functions in `src/` carry
`requires`/`ensures` contracts that Verus proves; the trusted items, both in
`session.rs`, are the call of `std::path::Path`'s equality and the call of
`chrono`'s RFC 3339 parser.

- `src/antigravity_config.rs`: file locations under the home directory and the
  contents of `settings.json` and `mcp_config.json`.
- `src/mcp.rs`: converting MCP server definitions to and from the Antigravity
  form, syncing enabled servers, importing servers into the unified
  configuration (with the round-trip and idempotence laws).
- `src/session.rs`: source paths, user-request extraction, the session list,
  message lists sorted stably by timestamp, and history rewriting on delete.
- `src/table.rs`, `src/json.rs`, `src/text.rs`, `src/paths.rs`,
  `src/validation.rs`, `src/app_config.rs`: the keyed table, the JSON model,
  text helpers, path joining, definition checks and the configuration types.
- `app/`: file reading and writing, serde forms of the types, and the command
  entry points; it hands plain values to the library and writes back what the
  library returns.
