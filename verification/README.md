# caspar_av

A verified library for driving a CasparCG server: building AMCP commands and
decoding the server's replies, correlating requests and replies on a
connection, decoding OSC telemetry and keeping its state, and compiling a show
of screens and cues down to protocol commands. Every function in `src/` is
proved against its contract with Verus; the daemon in `app/` does the I/O.

Layout:

- `src/amcp/` — `command` (a command and its wire form, parameter escaping),
  `commands` (one builder per AMCP command), `response` (the reply decoder),
  `client` (request ids, batches and reply routing for one connection).
- `src/osc/` — `decode` (OSC packets and bundles), `state` (telemetry leaves
  with expiry), `tree` (the raw tree), `digest` (channels, layers and slots).
- `src/show/` — `model` (screens, cues, pads), `compile` (mapping, cues,
  warnings), `edit` (editing by id).
- `src/control.rs` — what the console's requests turn into.
- `src/bridge.rs` — the connection supervisor, the handshake on connect, the
  command log and the library refresh.
- `src/scanner.rs` — media-scanner URLs, text listings and media kinds.
- `src/text.rs` — text helpers shared by the above.
- `app/` — the `caspar-avd` daemon: sockets, HTTP and WebSocket API, JSON.
- `tests/` — tests of the library.
