# pawn_editor

A small 2D scene editor. Pawns (a transform, a sprite and a random 128-bit
identifier) are placed in a world; the editor selects them with the mouse,
drags them, and keeps an undo/redo history of the moves. Textures are loaded
through an asset store that queues loads and keeps a manifest of name/path
pairs, which a save file carries.

Layout:

- `src/` — the verified library (Verus). Generic over the transform, sprite,
  camera and texture types, so that it holds no floating-point data.
  - `world.rs`: pawns, the pawn manager (pawns by identifier), the world.
  - `command.rs`: move commands and the command history, with their laws.
  - `editor.rs`: tool mode, selection, press/release of a drag, shortcuts.
  - `asset.rs`: assets, handles and the asset store with its manifest.
  - `sprite.rs`: sprites and pivots.
  - `action.rs`: an undo/redo history for user-defined actions.
  - `save.rs`: applying a loaded save to a session.
  - `uid.rs`: random identifiers.
- `tests/` — tests of the library on concrete values.
- `app/` — the macroquad program: drawing, input, camera, floating-point
  geometry, texture loading from disk, RON save files, and a Bevy system
  for the action history.
