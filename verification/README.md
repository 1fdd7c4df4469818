# raytrace_tiles

Verified core of a black-hole raytracer's tiled screenshot pipeline.

- `src/tiling.rs` — the tile plan: how a large image is cut into tiles that fit
  the GPU's texture limit, and the proofs that the kept parts of the tiles
  partition the image.
- `src/readback.rs` — the row-padded staging-buffer layout of a tile and the
  removal of the padding.
- `src/stitch.rs` — the capture state between tile renders; the canvas always
  holds exactly the tiles received, and the finished image is the stitched
  tiles.
- `src/image_out.rs` — the `image` crate's RGBA8 buffer.
- `src/viewer.rs` — key bindings for captures and the viewer's capture gate.
- `src/matrix.rs` — 4x4 transpose for shader uniforms.
- `app/main.rs` — the window, GPU rendering, camera math and file output.
