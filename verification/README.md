# MCPlex

An MCP (Model Context Protocol) gateway: many upstream MCP servers behind one
endpoint, with tool routing, security policy and observability. The gateway's
decisions and data structures live in a library whose behaviour is stated in
Verus contracts and proved; the program around it does the networking, the
processes and the files.

## Layout

- `src/` — the verified library (`mcplex`):
  - `config` — configuration model, defaults, validation, `${VAR}` references.
  - `security` — glob patterns, role-based access, per-server allow/block
    lists, audit entries and log rotation plans.
  - `protocol` — MCP definitions; the upstream registry and its routing
    indexes (`multiplexer`, `index`, with the routing laws in `routing`);
    the tool result cache; the gateway's request decisions; HTTP answers;
    discovery decisions and paged listings; request ids, request lines and
    pending-request bookkeeping for stdio servers; respawn backoff.
  - `router` — the routing trait, the pass-through strategy, tokenising and
    the searchable text of a tool.
  - `observe` — per-tool statistics and percentiles, the metrics collector,
    the Prometheus exposition, dashboard and AgentLens texts.
  - `text`, `time`, `json` — string, calendar and JSON helpers.
- `tests/` — tests of the library.
- `app/` — the gateway program: command line, configuration files, HTTP
  endpoints, upstream connections, dashboard, audit log files, and the
  floating-point scoring routers.

## Roles

With `enable_rbac` on, a `tools/call` is checked against the caller's role:
the role's allowed and blocked tool patterns, and the `allowed_roles` of the
server the call is routed to (an empty list admits every role). A client
names its role in the `x-mcplex-role` HTTP header; a request without that
header is checked against the allow and block lists alone.
