# planning

The planning core of a small Ackermann-steered robot, written and proved in
Verus.

- `src/behavior` decides what the robot is doing: following, approaching,
  recovering, stopping.
- `src/global_planner` searches a path over an occupancy grid (Hybrid A* with
  reverse gear and analytic goal expansion), smooths it, and watches whether it
  is still good.
- `src/local_planner` turns a path into velocity commands: pure pursuit, a
  tracking optimiser, a dynamic window sampler, a short-horizon optimiser for
  tight manoeuvres, and scripted reverse escapes.
- `src/arbitrator` chooses between command sources and keeps every command
  within the safety envelope.
- `src/config.rs`, `src/e2e.rs`, `src/fault.rs`: configuration and its rules.
- `src/ieee` is IEEE-754 arithmetic on bit patterns, with laws of rounding.
- `src/trig.rs` describes the circular functions, which a caller hands in.

A planner's result is pinned down to the bit: each contract names the number that
comes out, given the circular functions. Only the path search leaves open which of
several equally cheap nodes it takes first. Files named `laws.rs` or `*_laws.rs`
state what follows from the contracts for the planner as a whole: margins that
are kept, limits that are never exceeded. `src/behavior/cycles.rs` says how a
recovery begins, goes on and ends over a series of cycles.

`app/` is ordinary Rust around the library: the configuration file, the
machine's circular functions, texts and the log.
