# open_parallel

A verified library, written in Verus, for task scheduling and task
intelligence in an async runtime.

- `src/deadline_executor.rs` — a deadline-aware executor with a conservation
  budget: never more active tasks than the budget, FIFO queueing, rejection of
  tasks whose deadline has passed, expiry on each tick. Its contracts state
  the exact state after each operation; the invariants and laws are proved.
- `src/clock.rs` — instants as nanoseconds since the Unix epoch, read from the
  system clock.
- `src/monitor.rs` — bounded per-task throughput histories and the plan of
  which task pairs an analysis compares.
- `src/phase.rs`, `src/report.rs` — runtime phases and report counting.
- `src/matrix.rs` — square matrices and task dependency matrices.

`app/` holds what is floating point or output: the information-theoretic
measures (entropy, mutual information, divergences, transfer entropy,
permutation entropy), the spectral scheduler's power iteration, the report
text, and serde-enabled copies of library types.
