# nft-gate-gateway (verified core)

The verified core of an NFT-gated reverse proxy for Sui `access_gate` NFTs.

- `src/` — the library, verified with Verus:
  - `challenge` — random, time-bound challenge nonces consumed at most once; a bounded
    in-memory store (hard cap with soonest-to-expire eviction, pruning) and the key layout
    and reply reading of the shared Redis-protocol store.
  - `ratelimit` — per-address fixed 60-second window limiter.
  - `access_proof` — the signed message and the byte stage of proof-token decoding.
  - `proxy` — upstream URL, stripped headers and failure answers.
  - `sui_rpc` — the decisions taken on Sui RPC replies and the ownership cache.
  - `table`, `text`, `encoding`, `clock` — a string-keyed table viewed as a finite map,
    string comparisons, hex / base64 / whitespace helpers, and clock readings.
- `app/` — the I/O around it: Redis commands, serde JSON, the upstream HTTP exchange and the
  Sui JSON-RPC round-trips.
- `tests/` — unit tests run against the compiled library.
