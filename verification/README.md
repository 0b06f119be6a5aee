# hugr

The verified core of an agent runtime: a pure brain that folds host events
into an append-only log and emits commands, with the host-side logic around
it — permission policies, the terminal front-end's rendering, jailed
filesystem write tools, schedule parsing, answer-schema validation and
answer extraction.

- `src/` — the library, verified with Verus. `brain.rs` holds the reducer and
  its transition function `step`: `submit` yields exactly `step` of the old
  state, up to the answers of the brain's `TurnPolicy` (each bound to the
  policy's own specification) and the identity of the strings the brain
  builds (their characters are fixed). The other modules hold the host
  logic, each public function with an exact contract, and the laws the
  library keeps as public proof functions (`law_*`).
- `tests/` — tests on concrete values.
- `app/` — host glue that does the I/O: printing, reading stdin,
  canonicalizing and writing files, `serde_json::Value` conversion.
