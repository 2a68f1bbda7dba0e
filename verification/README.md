# mcp-server-template

A Model Context Protocol server that runs as a WebAssembly component, with its
decisions verified by Verus.

- `src/` is the library. It holds the tools, the guard on outbound targets, the
  reading of URLs, responses, settings and headers, and what is proved of them.
  What it takes on trust from `http`, `rmcp`, `tracing-subscriber` and the
  standard library stands in functions marked `external_body`, each with a
  comment that says what it claims.
- `app/` is the component: the `wasi:http` export, the tokio runtime, outbound
  requests, and the tool router.
- `tests/` runs the library with the real crates.

## Settings

| Variable | If it is unset | Purpose |
|---|---|---|
| `RUST_LOG` | `info` | The log filter. Directives that do not parse count as unset. |
| `MCP_ALLOWED_HOSTS` | loopback hosts | Comma-separated `Host` values to accept; `*` accepts every one. |
| `MCP_HTTP_GET_ALLOW_LOCAL` | local targets are refused | `true` or `1` lets `http_get` reach local targets. |
| `MCP_OUTBOUND_TIMEOUT_MS` | `30000` | The deadline of one outbound exchange. |
| `MCP_OUTBOUND_MAX_BYTES` | `4194304` | The largest outbound response that is buffered. |
