# kv_router

Router-side planning of key/value cache movement: which chunks to prefetch where, which
prefixes to copy to CXL memory, and what to tell the cache controller. The library decides;
it reads no clock, no environment and no socket.

- `src/` is the library. Every decision has a contract over a mathematical model of the state,
  checked with Verus.
  - `clock`, `environment`, `text`, `key_map`, `weights`: time, settings, text, maps and scores
    as plain values.
  - `protocols`, `chunks`, `segment_id`: identities of workers, blocks, chunks and segments.
  - `associations`, `ranking`, `prediction`, `worker_choice`, `manager_state`, `global_config`,
    `global_prefetch`, `manager_invariant`: the predictor of chunks that a session needs next.
  - `prefetch_hint`: hints to LMCache and the reading of its answers.
  - `lookahead`, `prefetch`, `job_queue`: hints for requests that still wait for their route.
  - `byte_rate`, `offload_config`, `offload`, `offload_exchange`: background copies.
- `tests/` runs the library from outside.
- `app/` is the runtime around it: clocks, the process environment, HTTP, ZeroMQ and tasks.

Two outside functions are trusted: the XXH3 digest of `xxhash-rust`, whose result only has a
name, and random identifiers of `uuid`, of which only the form is stated. Weights are opaque to
the library, which only compares them; the caller supplies their arithmetic.
