# bifrost_admin

The decision logic of the Bifrost proxy's administration service, written in
Verus. The functions in `src/` carry contracts that Verus proves, except the
small trusted wrappers around outside crates and std, whose contracts are
taken on trust (four of them, which only convert values or give error text,
have none).

- `src/` — the verified library: request routing for each API area, the
  authentication checks, traffic query and search parsing, the search rounds,
  frame paging and merging, server-sent-event parsing and response assembly,
  WebSocket frame and handshake handling, the push-channel registry and
  subscriptions, the connection registry, client TLS trust evaluation, the
  pending-address list, usage counters by application and host, replay
  records and their storage rules, and the body and frame store bookkeeping.
  Outside crates (serde_json, bcrypt, base64, sha1, flate2, brotli, zstd,
  regex, urlencoding) are reached through small trusted wrappers whose
  contracts name what the crate computes.
- `tests/` — tests of the library on concrete values.
- `app/` — what stays outside: the clock, randomness, session-token signing
  with `jsonwebtoken`, the JSON form of library values, and the
  floating-point rate and alert figures.
