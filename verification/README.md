# nexus_gateway

The public ingress of a Nexus deployment: it fetches its routing table from
the registry, proxies the host shell and the remote micro front-ends, guards
every request with per-client protection layers, and serves a single-page
shell while remotes load.

## Layout

- `src/` — the verified library (Verus). Route table with longest-prefix
  matching, header and cache policy, per-client bans, violations and
  connection slots, start-up decisions, registry event handling, reconnect
  back-off, upstream addressing, and the page shell. Each public function
  carries a contract; the laws that tie functions together are public proof
  functions next to them.
- `app/` — the server around the library: axum routing, hyper clients,
  WebSocket relays, Prometheus metrics, the token-bucket rate limiter, and
  the serde shapes of the registry's JSON.
- `tests/` — tests of the library's public functions on concrete values.
