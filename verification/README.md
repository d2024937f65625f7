# semweb

A streaming semantic-web service: Triple Pattern Fragments over a SPARQL
store, a WebSub hub that pushes topic changes to subscribers, a live
agent manifest and JSON-LD context, an MCP server, and a trust layer that
signs and verifies documents with Ed25519 Data Integrity proofs.

## Layout

- `src/` — the library, verified with Verus. Every decision the service
  makes lives here with its contract: topic and callback policy, lease
  clamping, intent verification and its commit, the subscription table and
  its sharding between replicas, delivery retries, the durable delivery
  log's update texts and rows, fragment queries and pagination cursors,
  cardinality counters, prefix compaction, JSON-LD lines, canonical JSON,
  base58/Multikey, RFC 3339 timestamps, proofs and the four verification
  gates, the trusted-issuer registry, secret encryption at rest, the
  write path's duplicate handling, the startup loader's retries, the MCP
  server's envelope check, declarations and texts, and the documents the
  HTTP surface serves.
- `tests/` — tests of the library.
- `app/` — the service binary: environment, HTTP server, the SPARQL client,
  the hub's asynchronous work (verification requests, delivery workers,
  sweeps) and the per-callback rate limiter.

Calls into cryptographic, encoding and parsing crates (ed25519-dalek,
sha2, hmac, aes-gcm, base64, serde_json, urlencoding, rand, subtle,
reqwest's URL parser) stand behind small trusted wrappers in `src/`, each
documenting what its contract claims of the outside function.
