# render

Verified core of a 2D/3D rendering engine: the scene graph, scene presets, the scene and
material panels, the pointer interaction of the UI layer, the scripting interface of the web
front end, texture and readback helpers. Every function in `src/` carries a contract proved by
Verus, with one trusted exception: `strings::to_lowercase` calls std's `str::to_lowercase`, and
its contract (the result is `spec_to_lowercase` of the argument) is assumed, not proved. Coordinates and colours are held as `f32` bit patterns, since the matrix math, meshes and
GPU work belong to the renderer.

Layout:

- `src/scene/` — entities, primitives, transforms, node data, and the world graph (`World`): a
  forest with ghost ranks that witness acyclicity, its traversals, removal, reparenting, and its
  parts form (`WorldParts`) with a validating rebuild.
- `src/scene_state.rs` — worlds, active world, selection and display modes.
- `src/demo.rs`, `src/presets.rs`, `src/panels.rs` — primitive names, the tree text, scene
  actions, preset scenes, and the panels' buttons.
- `src/web_api.rs`, `src/web_frame.rs` — requests queued by page scripts, their per-frame
  application, and the values published back.
- `src/ui.rs`, `src/ui_state.rs` — control ids and states, and the hover/press/click machine.
- `src/pointer.rs` — what a press or release of the pointer does: UI, gizmo, orbit or pick.
- `src/texture.rs`, `src/readback.rs`, `src/strings.rs` — byte-level helpers.
- `app/` — front-end glue: stored form of worlds (serde + bincode), script bindings, shader
  file loading.
- `tests/` — scenarios for the library.
