# growlerdb_engine

The decision-making core of a distributed search engine over Iceberg tables, written in Verus: what
a gateway, a node and a control plane decide is executable Rust whose contracts are proved.

## What is proved

- **Callers.** Credentials become identities (`authn`, `jwt`, `tokens`), identities replace what
  callers assert (`metadata`, `authn`), policies are asked what the metadata says (`auth`), and
  logins are throttled (`throttle`, `control`).
- **Searches.** Which shards a query goes to (`gateway`, `query`, `fanout`), what each is asked, and
  how their answers merge into one page (`merge`, `tally`, `stats`). `merge_laws` shows of rows in
  order that windows of them tile and resume. `scroll_laws` shows of the pages that `fanout` merges,
  where a document has the same row on every shard: each is the window of all hits, and passing
  cursors on until there is none returns every hit once, in order.
- **Rebuilds.** A coordinated reindex as a state machine (`reindex_driver`, `jobs`, `fence`);
  `reindex_laws` shows that no unit is promoted before all are built, that the routing generation
  moves last, and that nothing stays staged. The rebuild of one node's shard (`node_rebuild`), which
  replaces the live shard only where it may and opens the fence whatever came of it. Online growth
  and bucket moves (`reshard`), which change owners only where nobody else did since, and trim shards
  only after that.
- **Sources.** Builds and their commits (`engine`, `admin`), drift between an index and its source
  and its repair (`drift`, `reconcile`), and how far ingestion is behind (`ingestion`). The
  reconciliation of a node's shard (`node_reconcile`) notes where the shard stands before it reads
  the source, and deletes nothing from a shard that moved on since.
- **Hybrid search and hydration** (`fusion`, `hydrate`), **placement** (`placement`, `endpoint`) and
  the smaller control-plane requests (`requests`, `registry`, `definition`, `index_info`).

`order`, `keys` and `text` hold the sorting, byte keys and strings that the rest is made of.

## What is trusted

Calls into tonic's metadata map, jsonwebtoken, serde_json, sha2, base64 and getrandom stand behind
small wrappers in `metadata`, `jwt` and `tokens`; each says what it claims of the call that it makes.

## Layout

- `src/` is the verified library.
- `tests/` runs it.
- `app/` is what runs the engine: clock, disk, network, shared state, background tasks and
  floating-point scores. Scores and sort values reach the library as integers that order alike.
