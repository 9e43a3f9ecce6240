# rotvoxel

Voxel art rotation with the rotsprite approach: a voxel buffer is upscaled with a
3D Scale2x, rotated at the higher resolution and downscaled again.

- `src/` is the verified library (Verus): flat indexing (`three_to_one`,
  `one_to_three`), the 3D Scale2x upscale, the repeated upscale that prepares a
  rotation (`rotvoxel_upscale`), `downscale`, and the conversion between palette
  models and flat RGBA buffers (`flatten_vox_model`,
  `flattened_voxels_colors_to_voxels`, `colors_to_vox_model`).
- `app/` holds what stays unverified: the floating-point rotation (`rotate`),
  `rotvoxel` and `rotvoxel_dotvox` that run the whole pipeline, the error type
  with its `std::error::Error` impl, and the conversion from and to `dot_vox`
  scenes.
- `tests/` runs the library on concrete buffers.
