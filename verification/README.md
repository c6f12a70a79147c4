# ossido_bench

The harness that benchmarks Ossido (React rendered from Rust) against Next.js:
throughput, latency, streaming time-to-first-byte and memory efficiency.

- `src/` is the verified library: configuration and paths, version detection,
  the README results table, the Cargo.toml and package.json pinning, the
  parallelism sweep and its charts, the load generator's and streaming
  probe's decisions, server launch commands and report text. Each public
  function carries a contract proved by Verus; the laws stand as public
  proof functions.
- `app/` is the program around it: command line, HTTP load, processes,
  timing, memory sampling, progress UI and the floating-point reports.
- `tests/` runs the library on concrete inputs.
