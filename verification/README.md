# roci-storage

Storage for an OCI registry: a content-addressable store in which every
repository is an OCI image layout, with a metadata index over it that is
recorded on its own and can always be rebuilt from the layout.

`src/` is the library, written in Rust and verified with Verus. It holds the
data structures and decides; it touches neither disk nor clock.

- `digest`, `hashing`, `error`, `text`, `chars`, `lists`, `block`: digests,
  checksums, errors and the texts and bytes they are made of.
- `table`, `page`: ordered tables, and serving them one page at a time.
- `json`: JSON values.
- `cache`, `filter`, `bufpool`, `dedupe`, `gc`: the small-blob cache, the
  presence filter, the buffer pool, where a blob can be linked from, and which
  blobs may be collected.
- `metadata`: the index. `model` says what it holds and what each mutation does
  to it; `log` and `log_store` keep it as a log with snapshots, `redb` and
  `redb_store` as indexed tables, and `engine` is whichever of the two is
  configured. `laws`, `append_laws`, `state_laws`, `store_laws` and
  `engine_laws` state what holds across restarts, compaction and engines.
- `layout`: image layouts, and deriving `index.json` from the index.
- `fs_storage`: the backend. Each operation is a sequence of decisions over the
  state and what came of the last step on disk. `laws` states what holds across
  operations.

`app/` is the rest: files beneath the store root, the log, snapshot and redb
files, locks, background tasks, configuration. It performs what the library
decides and reports what came of it.

`tests/` runs the library.

Where the library calls an outside crate, it does so in a function marked
`external_body`; the comment above each says what is believed of the call.
