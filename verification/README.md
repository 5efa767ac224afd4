# voxel_engine

The logic of a small voxel game, verified with Verus.

- `src/` is the verified library: chunk coordinates and keys (`coords`),
  blocks and faces (`block`), the block texture registry (`texture_bin`),
  terrain (`chunk`), packed vertices (`surface_vertex`), the slice mesher
  (`mesher`), the starting world (`world`), bone hierarchies (`skeleton`),
  the account rules and message handling of the server (`account`,
  `password`, `message`, `server`), input routing and text editing of the
  user interface (`ui`, `text_box`), and the health contract of entities
  (`entity`).
- `app/` is the server program (network, files, serialization) and the
  float geometry of models and the user interface.
- `tests/` runs the library on concrete values.
