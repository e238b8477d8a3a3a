# sms_editor

The editing rules of a Super Mario Sunshine stage editor, written in Verus:
goop painting and its undo history, connected fills, the enemy table's goop
spawn flags (the plan of a spawn update, its table edits and its
roll-back), the per-layer enemy pool bindings and rebinding an actor to a
layer's pool, NPC colour variants, the Mask Tool's
wash rules, the Material Library's rows, notes and its reset to a baseline,
the scene outliner, the retail sound and music catalogues, project
descriptors and recent projects,
and Dolphin's graphics-mod profile.

- `src/` is the verified library. Each public function states its result in
  its `ensures`; the public proof functions state the laws that relate
  several calls (undo then redo, a spawn flag that sticks, filtering that
  keeps ancestors, and so on).
- `tests/` runs the library on concrete values.
- `app/` is a small command-line front end: file and configuration-directory
  access, the TOML and JSON files, and the floating-point mask sampling that
  stays outside the verified library.
