# prismata

The verified core of Prismata, a voxel world editor whose prism tool has a render server
reimagine the view and projects the result back into the world as coloured voxels.

`src/` is the library, written in Verus. Its functions are proved against their contracts,
except the small trusted wrappers around the `zip`, `rand` and standard-library calls (in
`archive`, `replay_buffer`, `text`, `project` and `load_save`), whose contracts state what
those crates' sources and documentation show:

- `voxel`: voxels, materials and coordinates; `voxel::chunk` chunk storage, meshing and splat
  painting; `voxel::update` box updates and the eraser; `voxel::splats` grouping splats by chunk;
  `voxel::start_scene` the scene a world starts with.
- `load_save` and `archive`: world files, a ZIP archive of the settings, one file per chunk and
  the placed objects. Saving a world with distinct chunk coordinates (and settings and placed
  objects under 2 GiB each) succeeds, and loading
  what it wrote succeeds and gives the world back.
- `raycast`: marching a ray through voxels, and choosing between voxel and mesh hits.
- `image_mask`: the prism tool's mask editor (brush, magic wand, fill, invert).
- `prism`: how the prism workflow moves on as the user acts and as captures, renders and
  projections arrive.
- `training`: the episode bookkeeping of the hoverplate's training runs.
- `tools` (with the floor tool's clicks), `file_dialog`, `assets`, `project`, `settings`, `replay_buffer`, `text`, `math`.

`tests/` exercises the library on concrete values. `app/` is a small command-line program
around it: it reads the TOML configuration files, plans how the editor and the render server
start, and inspects world files or redraws their start scene.
