# wyrd

A deterministic signal-graph runtime for game logic, verified with Verus.

Authors describe a *weave*: knots (inputs, gates, edges, flags, counters,
timers, delays, arithmetic, outputs, commands) joined by threads. A weave is
validated (unique ids, resolvable ports, directions, no fan-in, required
inputs wired, acyclic, budget), bound into dense runtime tables, and settled
once per frame: host senses in, knots evaluated in topological order, output
samples and command emits out. Runtimes can be checkpointed, restored and
fingerprinted.

## Layout

- `src/` — the verified library. `validate`, `graph` and `weave` check and
  order graphs; `builder` and `pattern` author them; `runtime`, `loom` and
  `settle` bind and evaluate them (the settle of a frame is stated as a
  function of the tables, the held senses and the state); `runtime_state`
  checkpoints and restores; `fingerprint` hashes the bound tables; `host`,
  `recipe` and `scenario` drive frames; `cookbook` holds the tutorial
  recipes.
- `tests/` — the behavioural tests.
- `app/` — text codecs (JSON and RON) for checkpoints and weaves, through
  wire copies that carry the serde derives.
