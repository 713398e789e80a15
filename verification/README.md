# swal-agent

A conversational agent runtime (model → tool calls → results → model), with
skills, sessions, synchronisation between peers, a gateway and a scheduler.

`src/` is the verified library: each public function states its behaviour in
`requires`/`ensures` and Verus proves it. The properties that relate several
operations are public proof functions:

- `sync_laws`: merging is idempotent, keeps identifiers distinct, two peers
  that exchange their logs reach the same state hash, and reordering a log
  does not change its state hash;
- `store`: what is read back after creating, appending and deleting, message
  identifiers that only grow, sessions listed most recent first;
- `compaction`: compaction keeps the most recent messages that fit (one when
  nothing fits, not even the prompt and the marker), and the compacted
  conversation stays within the budget whenever the prompt and the marker
  alone do;
- `tools`: the tool table keeps each registered name once, however often it is
  registered, and lists the names strictly in increasing order.

Synchronisation payloads are JSON texts as `serde_json` writes them
(`json::is_canonical_json`); `apply_local` and `merge_remote` require it, and
their `_checked` forms test it first.

The MCP client's connect, list and call operations are step functions
(`mcp_flow`): the library says which request to send and what follows each
reply; the program sends the requests.

`app/` is the program around it: command line, HTTP/WebSocket gateway,
network clients, the SQLite store, timers and subagents.
