# bitmapd

Bitmap Resolver Daemon, a deterministic indexer for the Bitmap protocol on
Bitcoin. It needs a synced Bitcoin Core (`txindex=1`) and an `ord` server on
127.0.0.1:8080.

- `src/` is the library, with proved contracts: claim parsing, validation, the
  block-processing state machine, store keys, `ord` request paths, and the
  district query's answers.
- `app/` is the daemon around it: the command line, the HTTP client for
  `ord`, the SQLite store, the HTTP API, and the loop that performs what the
  block-processing machine asks for.
- `tests/` runs the library on concrete inputs.
