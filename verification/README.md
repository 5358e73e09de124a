# Brush

The verified core of a program that trains, renders and shows Gaussian splats,
with characters that walk through the scene.

Floating point is not verified. The library holds single-precision numbers by
their bits and names the operations that it needs; the caller computes them.
Contracts then say, for whatever the operations compute, which of them are
performed on what and what is done with the results.

| Directory | Contents |
|---|---|
| `src/single.rs`, `src/arith.rs`, `src/text.rs` | numbers by their bits, operations on them, texts |
| `src/collision/` | voxels in an octree: solidity, rays, capsules |
| `src/character/` | skinned meshes: reading, skeletons, animations, buffers, paths |
| `src/npc/` | characters that move by themselves |
| `src/render/` | splats: parameters, projection, tiles, rasterizing, what a render gives |
| `src/record/` | recording frames into a video |
| `src/cli/` | arguments, progress, single images |
| `src/ui/` | panels, their layout, and the state of the viewer |
| `tests/` | tests on concrete values |
| `app/` | the program around the library: files, windows, graphics, arithmetic |

Proof functions whose names begin with `law_` state what holds of several
functions together.
