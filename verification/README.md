# CSMA/CA simulation

A slotted CSMA/CA study model inspired by IEEE 802.11 DCF, written in Verus: the
simulation logic is executable Rust whose behaviour is stated in `requires` / `ensures`
contracts and proved.

## Layout

- `src/domain/`: scenarios, classes, timing and window settings, the named timing presets,
  user-facing configurations and the integer reports a run produces.
- `src/sim/dcf/`: the DCF engine. `model.rs` states one slot of the model as a spec function
  of the state and the backoff counters drawn; `engine.rs` runs it and proves that every run
  (and every per-slot trace) follows that model; `invariants.rs` proves what every slot
  keeps; `contention.rs` proves side laws of complete runs and traces (collisions pair up,
  successes wait past the DIFS, one report row per class name, every frame shows every
  station within its window); `backoff.rs`, `window.rs`, `medium.rs`, `station.rs`, `timing.rs` and
  `resolver.rs` hold the components and their laws; `metrics.rs` groups station totals by
  class; `rng.rs` holds the only calls into `rand`.
- `src/sim/runner.rs`: the entry points `run`, `trace`, `simulate` and range expansion.
- `src/slotted/`: the plain slotted model (no DIFS, no busy periods), its runs and sweeps.
- `src/experiments/`: seeded trial schedules and parameter sweeps over the DCF engine.
- `src/cli.rs`, `src/demo.rs`: command-line value resolution, demo scenarios and the replay
  state of the terminal demo.
- `src/summary.rs`: where the summary CSV of a raw CSV goes, reading the raw path as
  `std::path` does (empty and `.` components dropped).
- `app/`: the command-line program: argument parsing, CSV files, floating-point summaries,
  plots, the Markdown report and the terminal user interface.
- `tests/`: behavioural tests of the library.

Backoff counters come from rand's `StdRng`; the contracts say which range each counter is
drawn from, not which value comes out, so every report is stated as that of a complete run
of the model for some admissible draws.
