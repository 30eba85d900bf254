# mars_mesh

A capability discovery mesh for autonomous agents: a Kademlia DHT over QUIC
in which machines publish signed, content-addressed descriptors ("I can do X,
reach me at Y") and look them up by hierarchical routing keys.

## Layout

- `src/` — the library, verified with Verus: wire frames, identities and
  DIDs, descriptor creation and validation, canonical CBOR, routing keys,
  XOR distance, the routing table, descriptor storage with sequence
  replacement, TTL expiry and rate limits, the DHT node's request handlers,
  the decisions of iterative lookups, hub policy, rate limiting, address
  validation, peering state, tenants and DID-Auth challenges.
  `src/primitives.rs` holds the only trusted functions: the calls into
  BLAKE3, Ed25519, CBOR (ciborium), base58, the random number generator,
  UUIDs and the clock, each with the contract the crate documents.
- `tests/` — tests run against the compiled library.
- `app/` — the `mesh-node` program: QUIC transport, CBOR serialization of
  messages, the node's network loops, the hub runtime (tenant database,
  disk copy of descriptors and sequence watermarks, admin API, metrics,
  peering tasks) and the HTTP gateway.
