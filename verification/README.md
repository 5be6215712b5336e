# lane_switchboards

Actors, clusters and a messenger: the decisions are a verified library, the
sockets, files and tasks around them are ordinary Rust.

- `src/` is the library. Actor loops and their monitor, the hash ring and the
  cluster roster, consistency levels and quorum plans, Paxos acceptors and
  reads, the service mesh and its registry; under `messenger/` the frames, the
  inboxes and their journal, groups and their receipts, media, keys, presence,
  the gateway with its cluster, the client and end-to-end encryption; under
  `ffi/` what host applications see.
  Each function states what it returns, and laws that span functions are proof
  functions whose names begin with `law_`.
- `tests/` runs the library.
- `app/` performs what the library decides.

Outside crates are called through the functions marked as such in
`src/registry.rs`, `src/text.rs`, `src/time.rs`, `src/messenger/codec.rs`,
`src/messenger/auth.rs`, `src/messenger/digest.rs`,
`src/messenger/metrics.rs`, `src/messenger/olm.rs` and `src/messenger/ws.rs`;
their contracts are the trusted part of the proofs.
