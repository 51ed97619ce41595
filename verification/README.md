# bee

Verified core logic of a Bee (IOTA) node, written in Verus.

- `src/protocol/worker/transaction/tiny_hash_cache.rs`: a bounded first-in,
  first-out cache of xxHash values that deduplicates received transactions.
- `src/protocol/worker/transaction.rs`: the cache keyed by precomputed hashes and
  the transaction worker's handling of a received broadcast.
- `src/protocol/worker/solidifier/milestone.rs`: the decisions of the milestone
  solidifier workers and of their coordinator.
- `src/message/`: inputs, outputs, payloads and transaction essences, the
  validation a builder performs, and their little-endian packed form with proofs
  that packing and unpacking are inverse.
- `src/ternary/`: fixed-length ternary integers (balanced and unbalanced trits)
  with increment, shifting and comparison, proved against their numeric value.
- `src/signing/wots.rs`: the builder of the WOTS private key generator.

`app/` holds the asynchronous worker loops and serde forms of essences.
