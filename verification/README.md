# mosaix-engine

The authoritative state reducer of a tiling window manager, verified with
Verus.

Platform adapters observe windows and displays and carry out moves; the engine
decides. It owns one value, `EngineState`, and one function turns an `Event`
into the next state: `reducer::apply`, or `initial::next_state` on a copy.
Effects for the adapter and durable writes for the database are appended to
two logs of that state; nothing else leaves the engine.

## What lives outside

Geometry planners, the container-tree library, the window matcher, the rule
evaluator and the clock are not part of the engine. A step looks up what they
answered in `answers::Answers`, by the full question. A step that needs an
answer it was not given hands the `Question` back and changes nothing; the
caller finds the answer and applies the event again. So every step is a
function of the state, the event and the answers, and its contract says which.

## Layout

- `src/state.rs`, `event.rs`, `answers.rs`, `config.rs`, `window.rs`,
  `workspace.rs`, `outcome.rs`, `undo.rs`: what there is. Each type that holds
  a collection has a mathematical view; `state::Model` is the view of the whole
  state.
- `src/placement.rs`, `arrange.rs`, `trees.rs`, `assign.rs`, `parking.rs`,
  `switch.rs`, `observe.rs`, `glance.rs`: the parts a step is made of.
- `src/plans.rs`, `direction.rs`, `layout.rs`, `reversal.rs`: what a command
  would do, or the typed reason it would do nothing.
- `src/placing.rs`, `session.rs`, `lifecycle.rs`, `reducer.rs`: the events.
- `src/laws/`: what the engine promises, as theorems.
- `tests/`: the library from outside, with small stand-ins for the planners.
- `app/`: the reducer thread, its bounded queue and its readers.

## What is proved

Every executable function states its result exactly, over the models. On top of
that `src/laws/` proves, among others, that the logs only grow, that every
change a reader could notice raises the revision, that a window is told to leave
the screen only once its recovery entry is durable, that no step breaks the pool
of workspaces or invents one, that a failed switch never changes what a display
shows, that a complete mapping is shown exactly and carries every tree along,
that reflowing twice is reflowing once, that an undo restores every recorded
placement and is used up by it, and that a step settled with some answers gives
the same result with more.

The one thing believed without proof is how `std` spells a quoted string
(`text::quote`).
