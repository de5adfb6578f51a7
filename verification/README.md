# grok_bridge

A bridge that lets Codex drive interactive Grok sessions: a per-user runtime
server owns Grok processes in pseudo-terminals, and the CLI, Grok's lifecycle
hooks and a loopback WebUI talk to it over NDJSON and a WebSocket.

The library under `src/` is written in Verus. Each public function carries a
`requires`/`ensures` contract over mathematical models (`Seq`, `Map`, views of
the library's types), and the properties that span several functions are
public proof functions (`lemma_*`). Verus proves the library's code against
these contracts. The calls into base64, getrandom and serde_json go through
a few small trusted wrappers in `codec`, `json` and `text`, whose contracts
are assumed, not proved; `app/` is not verified at all.

- `protocol`: message types, one-message-per-line framing, request and
  response validation.
- `session`: phases, hook events, waits, input admission and framing, client
  leases, orphan cleanup stages, termination escalation, group close results.
- `transcript`: the bounded output record, read by byte offset.
- `writer_queue`: the writes waiting for a session's terminal and the bytes
  they hold against the input budget.
- `events`: WebUI terminal entries, splitting and packing them into frames.
- `web`: WebUI routing, HTTP head checks, WebSocket handshake checks, client
  commands and their results.
- `tombstone`: recently closed session handles.
- `runtime_dir`: the trust rules for the runtime directory and its socket.
- `hooks`, `hook_config`, `install`: hook ingress, the hook configuration file
  (including what serde_json reads back from a file that was written), and
  installation status.
- `cli`, `menu`, `version`, `transport`: argument parsing, the installer menu,
  release tags, and the client side of the connection.
- `codec`, `json`, `text`: the calls into base64, getrandom and serde_json, a
  JSON model, and text helpers.

`app/` is the executable around the library: processes and pseudo-terminals,
threads, sockets, files, the terminal UI and serde types. `tests/` exercises
the library from outside.
