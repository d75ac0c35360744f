# cathedral

A deterministic execution fabric: workflow plans compiled to DAGs, a
scheduler and engine that run them in a fixed order, a hash-chained event
log, replay of traces into rebuilt state, policy evaluation with
redaction, determinism certificates, and a small cluster layer
(consensus, leader election, membership, workers, coordinator).

Layout:

- `src/` — the library, written in Verus and verified: the public
  functions state what they return or change in their contracts. Calls into outside crates (BLAKE3, ed25519,
  UUID generation, the clock, IndexMap/IndexSet) go through small trusted
  wrappers whose contracts say what the outside code guarantees.
- `tests/` — tests run against the compiled library.
- `app/` — the command-line program and the parts that need I/O, async,
  serde encodings or floating point: JSON/CBOR/postcard encodings of the
  library's types, certificate files, snapshot files, backpressure ratios
  and the API server.

Verify with `verus` on `src/lib.rs` (crate type `lib`).
