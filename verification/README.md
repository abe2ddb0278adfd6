# jrpxy

The logic of an HTTP/1.x reverse proxy, written in Rust and proved with Verus:
message heads, the framing of bodies, and the state machines that move bodies
between connections.

The library does no I/O. A function that would read or write takes a
`transport::Context`; where it has to wait it returns `Poll::Pending`, and
`Context::take_wants` says what for. Whoever drives the connection performs that
operation, delivers its outcome, and polls again.

- `src/http_message`: requests and responses, their fields and framing
- `src/body`: readers, writers and forwarders of bodies
- `src/frontend`: the side of the client
- `src/backend`: the side of the server
- `src/session.rs`, `src/pool.rs`: what the proxy decides, and where connections
  come from
- `src/transport.rs`, `src/io_buffer.rs`, `src/octets.rs`, `src/text.rs`,
  `src/parse.rs`: what the rest stands on
- `app`: a server that drives the library with tokio
