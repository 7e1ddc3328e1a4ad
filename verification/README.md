# corvid

Corvid is the session and broker core for CVWP, the Corvid Wire Protocol: a
compact, length-framed binary format for streaming structured records (flow
telemetry, metrics fan-in, capture replay). It frames and parses streams,
registers schemas and templates, folds data records into a flow table,
reassembles fragments, keeps stream windows, connections and channels, and
routes many transport connections to per-source sessions. Codec, transform
engine and plugin messages are framed and checked but not executed here.

Every module under `src/` is written in Verus and verified: each public
function carries a contract over a mathematical model (sequences, maps,
spec functions). The session's handling of each message type is stated as
a step relation over the whole session state, and the laws that relate
several functions (round trips, eviction order, refusal before
`SESSION_OPEN`, coverage and gap accounting, ...) are public proof
functions.

## Layout

- `src/wire.rs`, `src/proto.rs` — message types, codes and per-type descriptors.
- `src/parser` — stream framing and a stream builder (build then parse gives
  the messages back).
- `src/schema` — field types, schemas, layouts, diffs, the registry, the
  template cache, the information model and the persistable catalog.
- `src/flow` — flow keys and records, the flow table, expiry, direction,
  biflow pairing, per-flow statistics and the connection registry.
- `src/reassembly` — fragment reassembly, the sliding window, coverage
  tracking and overlap policy.
- `src/session` — the session, the multi-session broker, the router and
  resource limits.
- `src/snapshot`, `src/io`, `src/store` — snapshot files, capture files,
  batching, hex dumps, sinks, and the in-memory record store and field index.
- `src/query`, `src/filter`, `src/report`, `src/inspect` — filtering, queries,
  aggregates and text rendering.
- `app/lib.rs` — the floating-point ratios derived from library counters.
- `tests/` — executable tests.
