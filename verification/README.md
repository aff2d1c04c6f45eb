# matrixagon2

The terrain logic of an open-world voxel renderer, verified with Verus: block culling,
chunk meshing with the mesh fill list algorithm, chunk loading around the player, and the
aggregation of chunk meshes into render buffers.

## Layout

- `src/block.rs`: block kinds, culling states and face textures.
- `src/terrain_gen.rs`: which block stands at a point of a sampled column.
- `src/texture.rs`: texture ids, the staging layout of the texture array, the mipmap chain.
- `src/mesh_util.rs`: faces, plant crosses, voxel indexing and the culling pass.
- `src/mesh_fill.rs`, `src/mesh_surface.rs`: the fill of a chunk's solid terrain, and the
  proof that it emits exactly the faces where the terrain meets the air.
- `src/mesh_sparse.rs`: plants and the fluid surface.
- `src/chunk_mesh.rs`: chunk coordinates, neighbour links, and the chunks loaded and drawn
  around the player as the player moves.
- `src/chunk_gen_mf.rs`: a chunk's mesh and the aggregation of the drawn chunks' meshes.
- `src/chunk_gen_hf.rs`: the voxel chunks of the farther level of detail: their culled
  voxels, the mesh of the faces open inside a chunk, and the aggregation that adds the
  faces on the chunks' borders, culled against the neighbouring chunks' voxels.
- `src/terrain.rs`: the terrain component, merging meshes into render data.
- `src/world.rs`, `src/flags.rs`, `src/camera.rs`: events and the queue that hands each
  round's events to the components, game switches, camera keys.
- `src/device.rs`: choosing a memory type, a queue family and a graphics device.
- `app/main.rs`: a headless run that samples the terrain's noise, runs the world's rounds
  over the flags, the camera and the terrain as a player walks through the world, and
  reports the render data.
- `tests/`: tests on concrete values.

The updates of the chunks around the player take the meshes of the chunks they load as
an argument: `ChunkMesh::missing_chunks` names them, the caller generates them, and
`ChunkMesh::update` loads them.
