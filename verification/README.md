# ylong_http_client

The proxy side of an HTTP client, written and proved in Verus.

- `src/proxy.rs` opens a tunnel through a proxy: the `CONNECT` request, and a
  machine that takes in what happens on the connection and says what to do next.
- `src/pool.rs` keeps connections by key. A key holds the target, the proxy with
  its credentials, and the TLS configuration; connections are shared under equal
  keys alone.
- `src/proxy/laws.rs` and `src/pool/laws.rs` state what holds of every tunnel, pool
  and key.
- `src/text.rs` is about bytes and characters.
- `app/` is what needs sockets, locks and process-wide state. It is ordinary Rust.
