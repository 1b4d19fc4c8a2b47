# nexus

A verified core for causal data and governance: version vectors, CRDTs
(counters, last-writer-wins registers and maps, observed-remove sets, a
replicated text), a causal operation DAG with conflict resolution and
snapshots, hierarchical sync, a token ledger, Byzantine fault tolerant
validation, sealed envelopes, presence, atoms and composites, developmental
capability gates and autonomic mode rules.

## Layout

- `src/` — the library, written in Verus. Each public function states its
  behaviour in `requires`/`ensures` over mathematical views (`Seq`, `Map`,
  `Set`), and the laws that relate several functions (merge laws, round
  trips, conservation of supply) stand as public proof functions.
  Calls into outside crates (SHA-256, Ed25519, AES-GCM, gzip, serde_json
  string quoting, the clock and the operating system's randomness) go
  through small trusted wrappers whose contracts name or bound what the
  crate returns.
- `tests/` — ordinary Rust tests run against the compiled library.
- `app/` — ordinary Rust around the library: floating-point models
  (arousal, pricing, training, routing, stage progression), I/O (HTTP,
  sync transport, RocksDB storage, logging and metrics), serde forms of the
  library's values, and the multi-threaded runtime.

## Building

The library is checked with Verus; the tests and `app/` build with Cargo.
