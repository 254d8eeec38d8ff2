# nova

The Nova game engine (Bevy 0.15, Rapier, WebGPU), split into a verified
library and the engine glue around it.

- `src/` — the `nova` library, written in Verus. It holds the engine's
  integer, text and state-machine logic with contracts and proved laws:
  tile maps, height maps, fog of war, path following, the map file format,
  asset registry and load state, behaviour-tree combinators and action
  decisions, animation player and state machine, audio playback state,
  collision routing, formations and slot assignment, input axes.
  Floating-point engine values are carried by their `f32` bit patterns and
  entities by `Entity::to_bits`.
- `app/` — ordinary Rust: Bevy plugins and systems, components that hold
  floats or Bevy types, A* over float costs, noise-based map generation,
  easing and tweens, the camera, serde copies of library types, scenes.
- `tests/` — tests of the library, run against the compiled crate.

## Collections

The engine keeps paths and group names in `HashSet<String>` and
`HashMap<String, _>`, and formations in `HashMap<FormationId, _>`. vstd's
contracts for `HashMap` and `HashSet` hold only for key types known to obey
its key model; that is given for the integer types, while for `String` keys
it has to be assumed, which this crate does not do. The library therefore
stores string-keyed data in `StringSet` and `StringMap` (vectors without
repeated keys, viewed as a `Set` and a `Map`). Formations are keyed by a
`u32`, but vstd gives `HashMap::get_mut` no contract, and the manager hands
out mutable access to a formation, so they sit in `IdMap`, the same
vector-backed map keyed by `u32`. The animation state machine's configurations
are keyed by `AnimationState`, an enum whose `Hash` and `Eq` come from
`derive`, which vstd's map contracts do not cover either; they sit in a
public vector of pairs, and `with_state` replaces a state's entry in place,
so no state appears twice.
