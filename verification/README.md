# bevy_mortar_bond

A Bevy plugin that plays dialogues written in the Mortar scripting language,
with its runtime logic verified by Verus.

## Layout

- `src/` — the verified library. Its functions carry contracts that Verus
  proves; the few calls into std, Bevy and the Mortar compiler sit behind
  `external_body` wrappers whose contracts are trusted, and the `From`
  impls are plain conversions. Modules:
  - `number`, `text`, `assoc`, `value`: Mortar numbers (IEEE-754 values held
    by their bits, compared exactly), text helpers, values and variables.
  - `condition`, `eval`, `condition_cache`, `variable_state`: conditions over
    variables and bound host functions, interpolation, cached `if`/`else`
    evaluation, the variable state with branch variables.
  - `script`, `dialogue_state`, `dialogue`: the compiled script's data, the
    dialogue cursor over a node (texts, line groups, choices, run statements)
    and what the current text shows.
  - `runtime`, `events`: the dialogues in progress and how each message
    (`StartNode`, `NextText`, `SelectChoice`, `ConfirmChoice`, `StopDialogue`)
    changes them; events bound to text positions.
  - `run_execution`, `text_events`: playing `run` statements step by step, and
    where text events land after interpolation.
  - `registry`, `asset`, `compiled`, `outside`: host functions; how asset
    files are recognised, compiled and read into a `CompiledScript` (the
    compiler's deserializer behind a trusted wrapper).
- `app/` — the Bevy side: plugins, systems, the asset loader and its file
  reading, timers, and the floating-point work (reading a script's words as
  numbers, moving text events to their positions).
- `tests/` — tests of the library.
