# garmr

The storage rules of a security data lake, in Verus: what is kept, what is dropped, who
may read it and how it is copied, with proofs that the code does what its contracts say.

`src/` is the library. Nothing in it does I/O; its functions go from values to values.

- `events` – rows of the events table, duplicates, what a rebuild drops, when one is due
- `sql` – what a logged SQL statement touches, and its fingerprint
- `guard` – which SQL may be run, and how it is limited to some sources
- `search` – which clauses a full-text search is made of
- `state` – cases, records, registry, environment, sequences, budgets, dumps
- `retention` – sealing, thawing and rewriting archives, and replication
- `route` – which alerts are sent
- `lock` – when a node may write

A few functions of outside crates (BLAKE3, chrono, sqlparser, serde_json, parquet and
arrow) are called from verified code. Each such call stands in a small function marked
`external_body` whose comment says what is taken to be true of it.

`app/` is ordinary Rust around the library: the databases, the object store, the
full-text index and the tasks that run them. `tests/` runs the library.
