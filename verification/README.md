# edgewit

A lightweight search and analytics engine for edge devices, with an
OpenSearch-style HTTP API, a crash-resilient write-ahead log and tantivy as
its index.

The library under `src/` holds the engine's rules, each with a contract that
Verus proves:

- `json`, `text`: the JSON and string models the rules are stated over.
- `schema`: index definitions, their validation, and the tantivy schema built
  from them.
- `registry`: the registered definitions, as a map from index name.
- `ingestion`: checking documents against a definition.
- `partition`: time-bucket names and index paths.
- `wal`, `wal_batch`: the WAL frame format (with a round-trip law), batching,
  the replies to a batch and the WAL offset after each of its events.
- `wal_cleanup`: which WAL segment files are deleted, in what order.
- `retention`: retention durations, size limits and purge planning.
- `indexer`: the indexed document, purge checks, pending commit offsets and
  the commit schedule.
- `compaction`, `settings`: compaction and numeric configuration.
- `api`: authentication, cluster responses, index management and search
  request handling.

`app/` is the server around it: configuration from the environment, the
axum routes, the WAL thread, the indexer, retention and compaction tasks,
and the serde forms of the library's types.
