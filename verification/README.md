# plaintext_server

A verified core for a family of small HTTP servers that answer the
"plaintext" benchmark request (`GET /plaintext` → `Hello, World!`), plus a
state-machine micro benchmark.

- `src/machine.rs`: machines driven one transition at a time (a flat
  sixteen-state machine and nested two-state machines), with exact step counts.
- `src/http.rs`: request-head parsing through `httparse`, requests and their
  headers, keep-alive rules, response encoding.
- `src/conn.rs`: one connection of the pipelined servers as a state machine:
  readiness in, "read", "write" or "done" out; answers pipelined requests in
  order and decides when the connection ends.
- `src/naive.rs`: the connection of the server that answers one request and
  closes.
- `src/lock.rs`, `src/slots.rs`: a try-lock and the fixed table of connection
  slots whose free slots form a list.
- `app/`: the programs: sockets, event loops, threads and timing.
