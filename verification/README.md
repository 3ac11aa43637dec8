# flakehub-cache-types

Nix store path types and versioned Bloom filter snapshots, verified with Verus.

- `src/` is the library. `nix_store` holds validated store paths and store path hashes. `bloom`
  holds the filter (`filter`), its snapshot format (`header`, `stream`), the manifest of a snapshot
  (`manifest`), live updates (`wire`) and the source shards that a filter is built from (`source`).
  `bloom::laws` states what holds across operations: that no inserted hash is forgotten, that
  insertions commute, that snapshots round-trip. `outside` holds the calls into other crates, whose
  contracts are taken on trust.
- `tests/` runs the library.
- `app/` wraps the library for services: file paths, UUIDs, JSON, error messages, floating-point
  statistics and a filter in atomic bytes that threads share.
