# channels_sv2 — verified vardiff core

The integer core of the Stratum V2 variable-difficulty controllers, written
in Verus with its behaviour stated as contracts and proved.

- `src/step_function.rs` — the share-rate-blind threshold ladder (rung
  selection, the classic cascade, monotonicity in the waiting time).
- `src/qtable.rs` — the shared Q-learning table: visit bookkeeping, the
  xorshift64 exploration generator, guided single-axis exploration, the
  confidence gate, and the persisted blob format with its round-trip laws.
- `src/champion.rs` — integer state of the decline-safe adaptive EWMA
  controller: tick cadence (with re-anchoring after a backwards clock
  step), share window, sign-persistence and
  same-direction runs, resets.
- `src/classic.rs` — the production `VardiffState` built on it.
- `src/telemetry.rs` — the gain registry with instance-guarded clearing.
- `src/vardiff.rs`, `src/testing.rs` — the share-window interface and a
  generic helper for driving it.

`app/` holds the runtime around the core: the process-wide virtual clock,
live tuning knobs, the shared telemetry instance, and the floating-point
stages of the controllers (EWMA estimate, Poisson / CUSUM boundaries, PID
loop, Q-value updates). Floating-point values cross into the core as IEEE-754
bit patterns and come back unchanged.
