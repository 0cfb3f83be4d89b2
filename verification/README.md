# astradb

A key-value server speaking a line protocol (`PING`, `SET`, `SETEX`, `GET`,
`DEL`, `METRICS`), with a sharded in-memory store, per-key time to live, a
write-ahead log replayed on start, and JSON snapshots.

- `src/` is the library, verified with Verus: text handling (`text`), the
  command parser (`protocol`), the store (`engine`), log records and their
  replay (`wal`), counters (`metrics`), settings (`config`), write
  announcements (`replication`), the per-connection decisions (`network`) and
  the benchmark load (`benchmark`). The laws of `protocol`, `engine`,
  `wal`, `metrics` and `network` stand as proof functions beside the code.
- `app/` is the program around it: sockets, files, the environment, the
  async tasks, and the JSON form of snapshots.
- `tests/` runs the library on concrete values.
