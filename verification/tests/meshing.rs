use matrixagon2::block::{Block, BlockCullType, BlockData, FaceDir, MeshType, RenderDataPurpose, TextureMapper, TransparencyType};
use matrixagon2::mesh_util::{ChunkGeneratorMF, ChunkVertex};
use matrixagon2::terrain_gen::{ColumnSample, Floralness, TerrainColumns};
use matrixagon2::texture::TextureIdMapper;

fn block(ident: &'static str, texture_id: TextureMapper<'static>, mesh: MeshType, transparency: TransparencyType) -> BlockData<'static> {
    BlockData { ident, texture_id, mesh, transparency }
}

fn block_table() -> Vec<BlockData<'static>> {
    vec![
        block("grass_block", TextureMapper::Lateral("grass_top", "dirt", "grass_side"), MeshType::Cube, TransparencyType::Opaque),
        block("dirt", TextureMapper::All("dirt"), MeshType::Cube, TransparencyType::Opaque),
        block("stone", TextureMapper::All("stone"), MeshType::Cube, TransparencyType::Opaque),
        block("sand", TextureMapper::All("sand"), MeshType::Cube, TransparencyType::Opaque),
        block("grass", TextureMapper::All("grass"), MeshType::XCross, TransparencyType::Transparent),
        block("flower", TextureMapper::All("flower"), MeshType::XCross, TransparencyType::Transparent),
        block("water", TextureMapper::All("water"), MeshType::Fluid, TransparencyType::Translucent),
    ]
}

fn mapper() -> TextureIdMapper {
    TextureIdMapper::new(
        ["grass_top", "dirt", "grass_side", "stone", "sand", "grass", "flower", "water"]
            .iter().map(|s| s.to_string()).collect(),
    )
}

fn generator(chunk_size: u32) -> ChunkGeneratorMF<'static> {
    ChunkGeneratorMF::new(chunk_size, block_table(), mapper())
}

fn columns(min_x: i32, min_z: i32, size: usize, f: impl Fn(i32, i32) -> ColumnSample) -> TerrainColumns {
    let mut samples = Vec::new();
    for x in 0..size as i32 {
        for z in 0..size as i32 {
            samples.push(f(min_x + x, min_z + z));
        }
    }
    TerrainColumns::new(min_x, min_z, size, size, samples).unwrap()
}

fn step_columns() -> TerrainColumns {
    columns(-1, -1, 4, |x, _z| ColumnSample {
        base_level: if x >= 1 { 21 } else { 20 },
        floral: Floralness::Barren,
    })
}

#[test]
fn voxel_positions_and_chunk_bounds() {
    let g = generator(4);
    assert_eq!(g.chunk_size(), 4);
    assert_eq!(g.access(0, 0, 0), 0);
    assert_eq!(g.access(1, 2, 3), 2 * 16 + 4 + 3);
    assert!(g.check_coord_within_chunk(3, 0, 3));
    assert!(!g.check_coord_within_chunk(4, 0, 0));
    assert!(!g.check_coord_within_chunk(0, -1, 0));
    assert_eq!(g.block_ind(3).ident, "sand");
}

#[test]
fn front_face_of_a_block() {
    let g = generator(4);
    let (v, i) = g.gen_face((1, 2, 3), 4, FaceDir::FRONT, TextureMapper::All("stone"), true);
    assert_eq!(v, vec![
        ChunkVertex { x: 2, y: 2, z: -3, lowered: false, u: 1, v: 1, txtr: 3 },
        ChunkVertex { x: 1, y: 3, z: -3, lowered: true, u: 0, v: 0, txtr: 3 },
        ChunkVertex { x: 1, y: 2, z: -3, lowered: false, u: 0, v: 1, txtr: 3 },
        ChunkVertex { x: 2, y: 3, z: -3, lowered: true, u: 1, v: 0, txtr: 3 },
    ]);
    assert_eq!(i, vec![4, 5, 6, 7, 5, 4]);
}

#[test]
fn top_face_uses_the_top_texture() {
    let g = generator(4);
    let (v, i) = g.gen_face((0, 0, 0), 0, FaceDir::TOP, TextureMapper::Lateral("grass_top", "dirt", "grass_side"), false);
    assert_eq!(v[0], ChunkVertex { x: 0, y: 1, z: 0, lowered: false, u: 1, v: 1, txtr: 0 });
    assert_eq!(v[3], ChunkVertex { x: 1, y: 1, z: -1, lowered: false, u: 0, v: 0, txtr: 0 });
    assert_eq!(i, vec![0, 1, 2, 3, 2, 1]);
    let (v, i) = g.gen_face((1, 0, 2), 8, FaceDir::TOP, TextureMapper::Lateral("grass_top", "dirt", "grass_side"), true);
    assert_eq!(v, vec![
        ChunkVertex { x: 1, y: 1, z: -2, lowered: true, u: 1, v: 1, txtr: 0 },
        ChunkVertex { x: 2, y: 1, z: -2, lowered: true, u: 0, v: 1, txtr: 0 },
        ChunkVertex { x: 1, y: 1, z: -3, lowered: true, u: 1, v: 0, txtr: 0 },
        ChunkVertex { x: 2, y: 1, z: -3, lowered: true, u: 0, v: 0, txtr: 0 },
    ]);
    assert_eq!(i, vec![8, 9, 10, 11, 10, 9]);
    let (v, _) = g.gen_face((0, 0, 0), 0, FaceDir::LEFT, TextureMapper::Lateral("grass_top", "dirt", "grass_side"), false);
    assert_eq!(v[0].txtr, 2);
}

#[test]
fn plant_cross() {
    let g = generator(4);
    let (v, i) = g.gen_xcross((5, 6, 7), 8, TextureMapper::All("flower"));
    assert_eq!(v.len(), 8);
    assert_eq!(v[0], ChunkVertex { x: 5, y: 6, z: -7, lowered: false, u: 1, v: 1, txtr: 6 });
    assert_eq!(v[2], ChunkVertex { x: 6, y: 6, z: -8, lowered: false, u: 0, v: 1, txtr: 6 });
    assert_eq!(v[7], ChunkVertex { x: 5, y: 7, z: -8, lowered: false, u: 0, v: 0, txtr: 6 });
    assert_eq!(i, vec![8, 9, 10, 10, 9, 11, 12, 13, 14, 14, 13, 15]);
}

#[test]
fn culling_hides_surrounded_blocks() {
    let g = generator(3);
    let mut voxels = vec![BlockCullType::BorderVisible0(Block(2)); 27];
    g.block_culling(&mut voxels);
    assert!(matches!(voxels[g.access(1, 1, 1)], BlockCullType::Obscured));
    for i in 0..27 {
        if i != g.access(1, 1, 1) {
            assert!(matches!(voxels[i], BlockCullType::BorderVisible0(Block(2))));
        }
    }
    g.block_culling(&mut voxels);
    assert!(matches!(voxels[g.access(1, 1, 1)], BlockCullType::Obscured));
}

#[test]
fn culling_keeps_blocks_next_to_air() {
    let g = generator(3);
    let mut voxels = vec![BlockCullType::BorderVisible0(Block(2)); 27];
    let i = g.access(1, 2, 1);
    voxels[i] = BlockCullType::Empty;
    g.block_culling(&mut voxels);
    assert!(matches!(voxels[g.access(1, 1, 1)], BlockCullType::BorderVisible0(Block(2))));
}

#[test]
fn culling_hides_fluid_under_fluid_and_solids() {
    let g = generator(3);
    let mut voxels = vec![BlockCullType::BorderVisibleFluid0(Block(6)); 27];
    let i = g.access(0, 1, 1);
    voxels[i] = BlockCullType::BorderVisible0(Block(3));
    g.block_culling(&mut voxels);
    assert!(matches!(voxels[g.access(1, 1, 1)], BlockCullType::ObscuredFluid));
    assert!(matches!(voxels[g.access(0, 1, 1)], BlockCullType::BorderVisible0(Block(3))));
}

#[test]
fn fill_of_a_step_in_the_terrain() {
    let g = generator(2);
    let cols = step_columns();
    let parts = g.voluminous_opaque_cubes_mesh((0, 19, 0), (0, 19, 0), &cols);
    assert_eq!(parts.len(), 6);
    assert_eq!(parts[0].2, FaceDir::TOP);
    assert_eq!(parts[0].0.len(), 16);
    assert_eq!(parts[0].1.len(), 24);
    assert_eq!(parts[0].0[0], ChunkVertex { x: 0, y: 20, z: 0, lowered: false, u: 1, v: 1, txtr: 0 });
    assert_eq!(parts[0].0[8], ChunkVertex { x: 1, y: 21, z: 0, lowered: false, u: 1, v: 1, txtr: 0 });
    assert_eq!(&parts[0].1[0..12], &[0, 1, 2, 3, 2, 1, 4, 5, 6, 7, 6, 5]);
    assert_eq!(parts[1].2, FaceDir::BOTTOM);
    assert_eq!(parts[1].0.len(), 0);
    assert_eq!(parts[2].2, FaceDir::LEFT);
    assert_eq!(parts[2].0.len(), 8);
    assert_eq!(parts[2].0[0], ChunkVertex { x: 1, y: 20, z: 0, lowered: false, u: 1, v: 1, txtr: 2 });
    assert_eq!(parts[3].0.len(), 0);
    assert_eq!(parts[4].0.len(), 0);
    assert_eq!(parts[5].0.len(), 0);
}

#[test]
fn flat_terrain_shows_only_its_surface() {
    let g = generator(2);
    let cols = columns(-1, -1, 4, |_x, _z| ColumnSample { base_level: 20, floral: Floralness::Barren });
    let parts = g.voluminous_opaque_cubes_mesh((0, 18, 0), (0, 18, 0), &cols);
    assert_eq!(parts[0].0.len(), 16);
    for k in 1..6 {
        assert_eq!(parts[k].0.len(), 0);
        assert_eq!(parts[k].1.len(), 0);
    }
}

#[test]
fn chunk_mesh_has_eight_parts() {
    let g = generator(2);
    let cols = step_columns();
    let mesh = g.generate_mesh((0, 19, 0), &cols);
    assert_eq!(mesh.len(), 8);
    let dirs = [FaceDir::TOP, FaceDir::BOTTOM, FaceDir::LEFT, FaceDir::RIGHT, FaceDir::FRONT, FaceDir::BACK];
    for k in 0..6 {
        assert_eq!(mesh[k].2, Some(dirs[k]));
        assert_eq!(mesh[k].3, RenderDataPurpose::TerrainOpaque);
    }
    assert_eq!(mesh[0].0.len(), 16);
    assert_eq!(mesh[2].0.len(), 8);
    assert_eq!(mesh[6].2, None);
    assert_eq!(mesh[6].3, RenderDataPurpose::TerrainTransparent);
    assert!(mesh[6].0.is_empty());
    assert_eq!(mesh[7].2, None);
    assert_eq!(mesh[7].3, RenderDataPurpose::TerrainTranslucent);
    assert!(mesh[7].0.is_empty());
}

#[test]
fn grass_grows_a_cross_on_every_column() {
    let g = generator(16);
    let cols = columns(-1, -1, 19, |_x, _z| ColumnSample { base_level: 12, floral: Floralness::Grass });
    let (v, i) = g.sparse_transparent_floral_mesh((0, 0, 0), (0, 0, 0), &cols);
    assert_eq!(v.len(), 16 * 16 * 8);
    assert_eq!(i.len(), 16 * 16 * 12);
    assert_eq!(v[0], ChunkVertex { x: 0, y: 12, z: 0, lowered: false, u: 1, v: 1, txtr: 5 });
    assert_eq!(i[12], 8);
}

#[test]
fn barren_ground_grows_nothing() {
    let g = generator(16);
    let cols = columns(-1, -1, 19, |_x, _z| ColumnSample { base_level: 12, floral: Floralness::Barren });
    let (v, i) = g.sparse_transparent_floral_mesh((0, 0, 0), (0, 0, 0), &cols);
    assert!(v.is_empty());
    assert!(i.is_empty());
}

#[test]
fn cliff_on_the_near_side_below_the_scan_is_left_open() {
    let g = generator(2);
    let cols = columns(-1, -1, 4, |x, _z| ColumnSample {
        base_level: if x < 0 { 10 } else { 30 },
        floral: Floralness::Barren,
    });
    let parts = g.voluminous_opaque_cubes_mesh((0, 19, 0), (0, 19, 0), &cols);
    for k in 0..6 {
        assert!(parts[k].0.is_empty());
    }
}

#[test]
fn step_inside_the_scan_is_closed() {
    let g = generator(2);
    let cols = columns(-1, -1, 4, |x, _z| ColumnSample {
        base_level: if x < 0 { 10 } else if x == 0 { 20 } else { 30 },
        floral: Floralness::Barren,
    });
    let parts = g.voluminous_opaque_cubes_mesh((0, 19, 0), (0, 19, 0), &cols);
    assert_eq!(parts[2].2, FaceDir::LEFT);
    assert_eq!(parts[2].0.len(), 8);
    assert_eq!(parts[2].0[0], ChunkVertex { x: 1, y: 20, z: 0, lowered: false, u: 1, v: 1, txtr: 3 });
    assert_eq!(parts[0].0.len(), 8);
    assert_eq!(parts[0].0[0], ChunkVertex { x: 0, y: 20, z: 0, lowered: false, u: 1, v: 1, txtr: 0 });
}

#[test]
fn fluid_surface_over_low_ground() {
    let g = generator(16);
    let cols = columns(-1, -1, 19, |_x, _z| ColumnSample { base_level: 5, floral: Floralness::Barren });
    let (v, i) = g.temporary_fluid_mesher((0, 0, 0), (0, 0, 0), &cols);
    assert_eq!(v.len(), 16 * 16 * 4);
    assert_eq!(i.len(), 16 * 16 * 6);
    assert_eq!(v[0], ChunkVertex { x: 0, y: 5, z: 0, lowered: false, u: 1, v: 1, txtr: 4 });
    assert_eq!(&i[0..6], &[0, 1, 2, 3, 2, 1]);
}

#[test]
fn fluid_scan_of_a_raised_chunk_is_empty() {
    let g = generator(2);
    let cols = step_columns();
    let (v, i) = g.temporary_fluid_mesher((0, 19, 0), (0, 19, 0), &cols);
    assert!(v.is_empty());
    assert!(i.is_empty());
}

#[test]
fn culling_leaves_the_cells_past_the_chunk_alone() {
    let g = ChunkGeneratorMF::new(3, vec![], mapper());
    let mut voxels = vec![BlockCullType::BorderVisible0(Block(2)); 30];
    voxels[28] = BlockCullType::Empty;
    g.block_culling(&mut voxels);
    assert_eq!(voxels.len(), 30);
    assert!(matches!(voxels[13], BlockCullType::Obscured));
    assert!(matches!(voxels[27], BlockCullType::BorderVisible0(Block(2))));
    assert!(matches!(voxels[28], BlockCullType::Empty));
    assert!(matches!(voxels[29], BlockCullType::BorderVisible0(Block(2))));
    assert_eq!(g.access(2, 2, 2), 26);
    assert_eq!(g.access(5, 0, 0), 15);
    assert!(g.check_coord_within_chunk(2, 2, 2));
    assert!(!ChunkGeneratorMF::new(3_000_000_000, vec![], mapper()).check_coord_within_chunk(0, 0, 0));
}
