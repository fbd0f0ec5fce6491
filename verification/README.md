# rok

A small reverse tunnel in the spirit of ngrok. A server hands out public domains
to clients over a control channel; for each public request it asks the client
for a fresh data channel and forwards the request through it, while the client
proxies it to a local service and prints an access log.

- `src/` is the verified library (Verus):
  - `wire` — bincode framing of tags and length-prefixed payloads;
  - `packet` — the protocol's packets and their codec, with the round-trip law;
  - `server` — the domain pool, the table of control channels, and what a new
    connection asks for;
  - `client` — what the client sends and how it reads the server's answers;
  - `text`, `access_log` — the first-line analysis behind the access log;
  - `router` — the address of a routing proxy's admin interface.
- `app/` runs the two programs (`server`, `client`) on tokio: sockets, tasks,
  printing.
- `tests/` exercises the library on concrete values.
