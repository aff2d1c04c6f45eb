use matrixagon2::block::{Block, BlockCullType, BlockData, FaceDir, MeshType, RenderDataPurpose, TextureMapper, TransparencyType};
use matrixagon2::chunk_gen_hf::ChunkHF;
use matrixagon2::chunk_mesh::{ChunkAdjacency, Length3D, Position};
use matrixagon2::mesh_util::ChunkGeneratorMF;
use matrixagon2::terrain_gen::{ColumnSample, Floralness, TerrainColumns};
use matrixagon2::texture::TextureIdMapper;

fn block(ident: &'static str, texture_id: TextureMapper<'static>, mesh: MeshType, transparency: TransparencyType) -> BlockData<'static> {
    BlockData { ident, texture_id, mesh, transparency }
}

fn lod_generator() -> ChunkGeneratorMF<'static> {
    let table = vec![
        block("grass_block", TextureMapper::Lateral("grass_top", "dirt", "grass_side"), MeshType::Cube, TransparencyType::Opaque),
        block("dirt", TextureMapper::All("dirt"), MeshType::Cube, TransparencyType::Opaque),
        block("stone", TextureMapper::All("stone"), MeshType::Cube, TransparencyType::Opaque),
        block("sand", TextureMapper::All("sand"), MeshType::Cube, TransparencyType::Opaque),
        block("grass", TextureMapper::All("grass"), MeshType::XCross, TransparencyType::Transparent),
        block("flower", TextureMapper::All("flower"), MeshType::XCross, TransparencyType::Transparent),
        block("water", TextureMapper::All("water"), MeshType::Fluid, TransparencyType::Translucent),
    ];
    let mapper = TextureIdMapper::new(
        ["grass_top", "dirt", "grass_side", "stone", "sand", "grass", "flower", "water"]
            .iter().map(|s| s.to_string()).collect(),
    );
    ChunkGeneratorMF::new(2, table, mapper)
}

fn empty_chunk() -> Vec<BlockCullType> {
    vec![BlockCullType::Empty; 8]
}

#[test]
fn lod_mesh_shows_the_faces_open_inside_the_chunk() {
    let g = lod_generator();
    let mut v = empty_chunk();
    v[g.access(0, 0, 0)] = BlockCullType::BorderVisible0(Block(2));
    let parts = g.generate_mesh_hf((4, 8, 3), &v);
    assert_eq!(parts.len(), 3);
    assert_eq!(parts[0].3, RenderDataPurpose::TerrainOpaque);
    assert_eq!(parts[1].3, RenderDataPurpose::TerrainTransparent);
    assert_eq!(parts[2].3, RenderDataPurpose::TerrainTranslucent);
    assert!(parts.iter().all(|p| p.2.is_none()));
    let stone = TextureMapper::All("stone");
    let (f, fi) = g.gen_face((4, 8, -3), 0, FaceDir::FRONT, stone, false);
    let (r, ri) = g.gen_face((4, 8, -3), 4, FaceDir::RIGHT, stone, false);
    let (t, ti) = g.gen_face((4, 8, -3), 8, FaceDir::TOP, stone, false);
    assert_eq!(parts[0].0, [f, r, t].concat());
    assert_eq!(parts[0].1, [fi, ri, ti].concat());
    assert_eq!(parts[0].0[0].z, 3);
    assert!(parts[1].0.is_empty() && parts[2].0.is_empty());
}

#[test]
fn lod_mesh_of_a_full_chunk_leaves_its_border_to_the_aggregation() {
    let g = lod_generator();
    let v = vec![BlockCullType::BorderVisible0(Block(1)); 8];
    let parts = g.generate_mesh_hf((0, 0, 0), &v);
    assert!(parts.iter().all(|p| p.0.is_empty() && p.1.is_empty()));
}

#[test]
fn lod_mesh_of_plants_and_water() {
    let g = lod_generator();
    let mut v = vec![BlockCullType::BorderVisibleFluid0(Block(6)); 8];
    v[g.access(1, 1, 1)] = BlockCullType::AlwaysVisible(Block(5));
    v[g.access(1, 1, 0)] = BlockCullType::Empty;
    let parts = g.generate_mesh_hf((0, 0, 0), &v);
    let (c, ci) = g.gen_xcross((1, 1, -1), 0, TextureMapper::All("flower"));
    assert_eq!(parts[1].0, c);
    assert_eq!(parts[1].1, ci);
    // the water next to the cleared voxel and the plant shows fluid faces, lowered on top
    let water = TextureMapper::All("water");
    assert!(parts[2].0.len() > 0);
    let (w, _) = g.gen_face((0, 1, 0), 0, FaceDir::RIGHT, water, true);
    assert_eq!(&parts[2].0[0..4], &w[..]);
    assert!(parts[2].0.iter().any(|x| x.lowered));
    assert!(parts[0].0.is_empty());
}

#[test]
fn lod_voxels_are_the_terrain_blocks() {
    let g = lod_generator();
    let cols = TerrainColumns::new(-1, -1, 4, 4, (0..16).map(|i| ColumnSample {
        base_level: if i / 4 >= 2 { 21 } else { 20 },
        floral: Floralness::Barren,
    }).collect()).unwrap();
    let v = g.generate_voxel((0, 19, 0), &cols);
    assert_eq!(v.len(), 8);
    for x in 0..2u32 {
        for y in 0..2u32 {
            for z in 0..2u32 {
                assert_eq!(v[g.access(x, y, z)], cols.get_block(x as i32, 19 + y as i32, z as i32));
            }
        }
    }
}

fn lod_chunk(hx: isize, voxels: Vec<BlockCullType>, right: Option<Position>, g: &ChunkGeneratorMF<'static>) -> ChunkHF {
    let pos = Length3D::new(2 * hx as i64, 0, 0);
    let mut adjacency = ChunkAdjacency::default();
    adjacency.right = right;
    let mesh = g.generate_mesh_hf((2 * hx as i32, 0, 0), &voxels);
    ChunkHF { pos, hash_pos: Position { x: hx, y: 0, z: 0 }, adjacency, voxels, mesh, visible: true }
}

#[test]
fn lod_aggregation_adds_the_border_faces_the_neighbour_leaves_open() {
    let g = lod_generator();
    let mut a = empty_chunk();
    a[g.access(1, 0, 0)] = BlockCullType::BorderVisible0(Block(2));
    let b_key = Position { x: 1, y: 0, z: 0 };
    let chunks = vec![lod_chunk(0, a.clone(), Some(b_key), &g), lod_chunk(1, empty_chunk(), None, &g)];
    let r = g.aggregate_mesh_hf(&chunks);
    assert_eq!(r.len(), 3);
    assert_eq!(r[0].2, RenderDataPurpose::TerrainOpaque);
    // three faces open inside the chunk, then the RIGHT face on the border
    assert_eq!(r[0].0.len(), 16);
    assert_eq!(r[0].1.len(), 24);
    let (f, fi) = g.gen_face((1, 0, 0), 12, FaceDir::RIGHT, TextureMapper::All("stone"), false);
    assert_eq!(&r[0].0[12..16], &f[..]);
    assert_eq!(&r[0].1[18..24], &fi[..]);

    let mut b = empty_chunk();
    b[g.access(0, 0, 0)] = BlockCullType::BorderVisible0(Block(3));
    let chunks = vec![lod_chunk(0, a.clone(), Some(b_key), &g), lod_chunk(1, b, None, &g)];
    let r = g.aggregate_mesh_hf(&chunks);
    // the neighbour's solid hides the border face; its own faces follow
    assert_eq!(r[0].0.len(), 12 + 12);

    let chunks = vec![lod_chunk(0, a, None, &g)];
    let r = g.aggregate_mesh_hf(&chunks);
    assert_eq!(r[0].0.len(), 12);
}

#[test]
fn lod_aggregation_skips_hidden_chunks() {
    let g = lod_generator();
    let mut a = empty_chunk();
    a[g.access(1, 0, 0)] = BlockCullType::BorderVisible0(Block(2));
    let mut c = lod_chunk(0, a, None, &g);
    c.visible = false;
    let r = g.aggregate_mesh_hf(&vec![c]);
    assert!(r.iter().all(|m| m.0.is_empty() && m.1.is_empty()));
}
