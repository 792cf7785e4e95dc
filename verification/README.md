# fenestra_ui_testkit

Deterministic, bounded test support for the Fenestra UI runtime, written in
Verus. The runtime's state enters the library as plain values (paths, handles,
counts, property values); every decision the testkit makes about those values
is a verified function with a contract.

## Layout

- `src/case.rs`, `src/semantic.rs`, `src/fixture.rs`: generated cases,
  semantic paths and the registered fixture's limits.
- `src/replay.rs`, `src/replay/`: case validation, commit and rejection shape
  checks, candidate faults, and the replay decided step by step from the
  runtime side's reports.
- `src/identity.rs`: the identity ledger (alias-free snapshots, preserved,
  fresh and retired handles), atomic on failure.
- `src/observe.rs`, `src/observe/`: observation of a committed snapshot model,
  preflight limits, binding to expected paths and the first-difference
  diagnosis against the desired state.
- `src/model.rs`, `src/model/rebuild.rs`: the normalized desired state and its
  clean rebuild from a construction program.
- `src/reducer.rs`, `src/reducer/`: the failure-case reducer, its metric and
  its transforms, bounded by an evaluation budget; the oracle is a pair of
  functions the caller supplies. A reduced case keeps the original's
  identifiers in order (`src/reducer/ids.rs`).
- `src/headless/`: the headless projection oracle (rebuild, normalization,
  faults), traces, artifacts and their verification, platform and renderer
  fakes.
- `tests/`: executable tests of the library.
- `app/`: adapters that read the Fenestra runtime into the library's values.
