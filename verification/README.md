# Monolith

The verified core of Monolith, a game framework that runs game logic as tokio coroutines and
treats bevy as a display and peripheral library.

- `src/` is the library, verified with Verus:
  - `utils`: the length-prefixed records of save files;
  - `lock`: the Referee-Athlete pause protocol, as functions from state and event to next state
    and action;
  - `from_bevy`: game events, key bindings and key combinations, buttons, the developer
    console's grammar and commands, the foreend registry, recording and replay scheduling;
  - `rover`: the Rover scripting language: its grammar, parser, variable scoping and the
    translation into Cranelift code through `rover::jit`;
  - `macro_utils`: the decisions of the framework's macros on a model of their tokens and types.
- `tests/` runs the library on concrete values.
- `app/` is the runtime around it: the global stump, tokio tasks and channels, bevy systems,
  the JIT symbol table, and the macro expansions on token streams.

The framework's Rhai scripting bindings are not part of this crate.
