# s3perf

A benchmark tool for S3-compatible object stores (and Iceberg REST
catalogs), split into a verified library and the program around it.

- `src/` — the library, verified with Verus: object-size strategies and the
  object generator, key and prefix naming, host selection, server-side
  encryption settings, run-file configuration and its command line,
  recorded operations with their selections, orderings, merging and
  per-segment counts, the auto-stop rule, request pacing, the per-workload
  decisions (delete batches, versioned pools, append chains, multipart
  completion, fan-out outcomes, catalog targets), TAR and ZIP archives, the
  Iceberg namespace tree, catalog paths and request signing, the dataset
  creation state machine, the coordinator/agent protocol, InfluxDB
  totals, and the compressed operations file of a run. Each public function carries a contract; the `law_*` proof
  functions state properties that span several functions.
- `tests/` — tests of the library on concrete values.
- `app/` — the `s3perf` command: argument parsing, the S3 and HTTP clients,
  the asynchronous workers, WebSocket coordination, the status endpoint,
  the terminal display, and the floating-point statistics of a run.

Calls into outside crates (hashing, encoding, random numbers, UUIDs, the
ZIP and tab-separated writers, zstd, RFC 3339 times) are made through small trusted wrappers whose contracts say
what the library relies on.
