# wasmnet

A networking proxy for browser WASM: the browser speaks a small
request/event protocol over WebSocket (or WebTransport), and the server
opens real TCP, TLS and UDP connections on its behalf, under an egress
policy and a bandwidth limit.

The crate is written in Verus. `src/` is the verified library:

- `policy` — allow/deny rules for networks, domains and ports, bind-port
  ranges and session limits; hostnames are checked again once resolved.
- `binary`, `wire`, `protocol` — the request and event messages and their
  binary frame codec.
- `proxy` — a session's decisions: what each request asks of the runtime,
  which resolved address a connection may go to, which event a read gives.
- `rate_limit` — the token bucket, in exact integer arithmetic.
- `pool` — idle connections kept per target for a limited time.
- `server` — how a server's policy, limit, pool and address are chosen.
- `webtransport` — the length-prefixed framing of the WebTransport stream.
- `ip`, `text` — addresses, networks and character helpers.

`app/` is the `wasmnet-server` program: the sockets, TLS, DNS, timers and
the session loops that carry out what the library decides. `tests/` holds
the tests.
