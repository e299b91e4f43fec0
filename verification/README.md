# penumbra

The backend-neutral core of an encrypted-inference runtime, with its behaviour
stated in contracts and proved with Verus.

A model arrives as an IR graph of a small, fixed set of operations. The library
validates each operation, fuses adjacent lookup-table operations, checks the
graph against the radix bit-width budget, and walks it node by node over any
backend that implements the `Backend` trait. Around that core it plans the CKKS
backend's linear maps and depth budget, aggregates evaluation profiles, checks
benchmark runs against a committed baseline, and reads the benchmark tool's
command line.

## Layout

- `src/` — the verified library.
  - `ir` — graphs, nodes, op specs and their validation.
  - `optimize` — the fusion rules and the optimizer, with their laws.
  - `bitwidth` — bit-width propagation and budget checks.
  - `backend`, `eval`, `session`, `bridge` — the backend contract, the graph
    walker, and the single-input sessions and batch loops built on it.
  - `ckks`, `ckks_params`, `ckks_plan` — plaintext matrices, diagonals,
    rotation schedules, parameter sizes and the per-op plan of the CKKS backend.
  - `profile`, `tally`, `baseline`, `report` — profiles, their aggregation,
    baseline checks and per-sample report decisions.
  - `models`, `cli`, `entry`, `wire`, `error` — the fixture registry, the
    command line, profile and key metadata, scheme-tagged envelopes and errors.
- `tests/` — tests of the library.
- `app/` — the I/O edge: JSON and bincode encodings, fixture loading, timing,
  float statistics and report rendering.
