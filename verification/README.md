# voxelcraft

The world model of a small voxel sandbox, written in Verus: every function
in `src/` carries a contract stating what it returns or changes, and Verus
proves each body against it.

## Layout

- `src/block.rs` — block kinds, their save ids and properties.
- `src/world.rs` — the 768×128×768 grid with per-cell water levels; the flat
  plain and the meadow generators; plant scattering; the spawn search; the
  save encoding and decoding.
- `src/save.rs` — the run-length save body and loading a save into a world.
- `src/joseon/` — the Joseon map: 경복궁 built on a plain. Every builder
  states exactly which cells it lays (`World::lays` with a named plan), and
  `joseon::generate` states the whole map cell by cell. `joseon::compact` is
  the smaller palace layout.
- `src/water.rs` — the water cellular automaton, one simultaneous step.
- `src/interaction.rs` — breaking and placing blocks.
- `src/hotbar.rs`, `src/viewmodel.rs`, `src/chunk.rs`, `src/texture.rs` —
  the hotbar window, the camera cycle, chunk columns, the atlas layout and
  the texture grain hash.
- `src/player.rs` — which cells stop the player's box; `src/particles.rs` —
  the generator break particles scatter with.
- `src/mesh.rs` — the greedy opaque mesh and the water faces of a chunk
  column, stated face by face over the world.
- `tests/` — scenarios on concrete values.
- `app/` — the program around the library: file slots, the noise height
  field, and the floating-point work beside the renderer (ray casting, the
  player's motion, painting the textures).
