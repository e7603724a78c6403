# ddss

Verified logic of a Rust wrapper around ddss, a double dummy solver for
bridge.

- `src/pool.rs`: the once-per-process configuration of ddss's thread pool
  (`thread_target`, `try_thread_target`, `to_request`) and its laws.
- `src/status.rs`: classification of ddss status codes (`check`).
- `src/batch.rs`: strain sets, the strain filter of `CalcAllTables`, and the
  segmentation of batches of deals and boards under ddss's per-call limit.
- `app/`: the FFI side — the process-wide reentrant lock, the `Solver`
  handle and the calls into ddss, which act on the decisions of the library.
