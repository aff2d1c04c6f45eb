use matrixagon2::block::{BlockData, FaceDir, MeshType, RenderDataPurpose, TextureMapper, TransparencyType};
use matrixagon2::chunk_mesh::{
    check_and_update_axis, check_inside_radius, find_chunk, floor_div_exec, load_chunk_into, Chunk, ChunkMesh,
    ChunkRadius, Length3D, MeshPart, Position, UpdateChunk,
};
use matrixagon2::mesh_util::{ChunkGeneratorMF, ChunkVertex};
use matrixagon2::texture::TextureIdMapper;

fn generator(chunk_size: u32) -> ChunkGeneratorMF<'static> {
    let b = BlockData {
        ident: "stone",
        texture_id: TextureMapper::All("stone"),
        mesh: MeshType::Cube,
        transparency: TransparencyType::Opaque,
    };
    ChunkGeneratorMF::new(chunk_size, vec![b; 7], TextureIdMapper::new(vec!["stone".to_string()]))
}

fn quad(x: i32) -> Vec<MeshPart> {
    let v = ChunkVertex { x, y: 0, z: 0, lowered: false, u: 0, v: 0, txtr: 0 };
    vec![(vec![v; 4], vec![0, 1, 2, 3, 2, 1], Some(FaceDir::TOP), RenderDataPurpose::TerrainOpaque)]
}

fn generated(positions: &[Length3D]) -> Vec<(Length3D, Vec<MeshPart>)> {
    positions.iter().map(|p| (*p, quad(p.x as i32))).collect()
}

fn pos(x: i64, y: i64, z: i64) -> Length3D {
    Length3D::new(x, y, z)
}

fn key(x: isize, y: isize, z: isize) -> Position {
    Position { x, y, z }
}

fn visible_count(m: &ChunkMesh) -> usize {
    m.chunks.iter().filter(|c| c.visible()).count()
}

#[test]
fn floor_division_rounds_down() {
    assert_eq!(floor_div_exec(3, 2), 1);
    assert_eq!(floor_div_exec(-3, 2), -2);
    assert_eq!(floor_div_exec(-4, 2), -2);
    assert_eq!(floor_div_exec(0, 5), 0);
    assert_eq!(floor_div_exec(-1, 64), -1);
}

#[test]
fn chunk_coordinates_of_a_point() {
    assert_eq!(Position::from_length(pos(-1, 3, 4), 2), key(-1, 1, 2));
    assert_eq!(Position::from_length(pos(63, 64, -64), 64), key(0, 1, -1));
    let p = key(0, 0, 0);
    assert_eq!(p.top(), key(0, 1, 0));
    assert_eq!(p.bottom(), key(0, -1, 0));
    assert_eq!(p.left(), key(-1, 0, 0));
    assert_eq!(p.right(), key(1, 0, 0));
    assert_eq!(p.front(), key(0, 0, 1));
    assert_eq!(p.back(), key(0, 0, -1));
    assert_eq!(p.neighbour(FaceDir::RIGHT), key(1, 0, 0));
}

#[test]
fn loaded_neighbours_link_each_other() {
    let mut chunks: Vec<Chunk> = Vec::new();
    load_chunk_into(&mut chunks, 2, pos(0, 0, 0), quad(0));
    load_chunk_into(&mut chunks, 2, pos(2, 0, 0), quad(2));
    load_chunk_into(&mut chunks, 2, pos(0, -2, 0), quad(0));
    assert_eq!(chunks.len(), 3);
    assert_eq!(chunks[0].adjacency.right, Some(key(1, 0, 0)));
    assert_eq!(chunks[0].adjacency.bottom, Some(key(0, -1, 0)));
    assert_eq!(chunks[0].adjacency.left, None);
    assert_eq!(chunks[1].adjacency.left, Some(key(0, 0, 0)));
    assert_eq!(chunks[1].adjacency.bottom, None);
    assert_eq!(chunks[2].adjacency.top, Some(key(0, 0, 0)));
    assert!(chunks[2].visible());
    assert_eq!(find_chunk(&chunks, key(1, 0, 0)), Some(1));
    assert_eq!(find_chunk(&chunks, key(5, 0, 0)), None);
}

#[test]
fn centre_axis_follows_the_player() {
    let mut c = 0;
    assert!(check_and_update_axis(&mut c, -3, 1, 2, 2));
    assert_eq!(c, -2);
    let mut c = 0;
    assert!(check_and_update_axis(&mut c, 3, 1, 2, 2));
    assert_eq!(c, 2);
    let mut c = 0;
    assert!(!check_and_update_axis(&mut c, 1, 1, 2, 2));
    assert!(!check_and_update_axis(&mut c, -1, 1, 2, 2));
    assert_eq!(c, 0);
    let mut c = 0;
    assert!(check_and_update_axis(&mut c, 0, 0, 2, 2));
    assert_eq!(c, 2);
    let mut c = 64;
    assert!(check_and_update_axis(&mut c, -100, 1, 64, 16));
    assert_eq!(c, 0);
}

#[test]
fn inside_the_inner_radius() {
    assert!(check_inside_radius(0, -2, Some(1), 2));
    assert!(check_inside_radius(0, 0, Some(1), 2));
    assert!(!check_inside_radius(0, 2, Some(1), 2));
    assert!(!check_inside_radius(0, -4, Some(1), 2));
    assert!(!check_inside_radius(0, 0, None, 2));
}

#[test]
fn forced_update_loads_the_whole_border_radius() {
    let mut m = ChunkMesh::new(Length3D::origin(), ChunkRadius(1, 1), None, 2, generator(2));
    assert_eq!(m.subchunk_outer_radius, 1);
    let missing = m.missing_chunks(UpdateChunk::Forced);
    assert_eq!(missing, vec![
        pos(-2, -2, -2), pos(-2, -2, 0), pos(-2, 0, -2), pos(-2, 0, 0),
        pos(0, -2, -2), pos(0, -2, 0), pos(0, 0, -2), pos(0, 0, 0),
    ]);
    assert!(m.update(UpdateChunk::Forced, generated(&missing)));
    assert_eq!(m.chunks.len(), 8);
    assert_eq!(visible_count(&m), 8);
    let i = find_chunk(&m.chunks, key(0, 0, 0)).unwrap();
    let a = m.chunks[i].adjacency;
    assert_eq!(a.left, Some(key(-1, 0, 0)));
    assert_eq!(a.bottom, Some(key(0, -1, 0)));
    assert_eq!(a.back, Some(key(0, 0, -1)));
    assert_eq!(a.right, None);
    assert_eq!(a.top, None);
    assert_eq!(a.front, None);
    assert!(m.missing_chunks(UpdateChunk::Forced).is_empty());
    assert!(m.update(UpdateChunk::Forced, Vec::new()));
    assert_eq!(m.chunks.len(), 8);
}

#[test]
fn chunks_follow_the_player() {
    let mut m = ChunkMesh::new(Length3D::origin(), ChunkRadius(1, 1), None, 2, generator(2));
    let missing = m.missing_chunks(UpdateChunk::Forced);
    m.update(UpdateChunk::Forced, generated(&missing));
    assert!(m.missing_chunks(UpdateChunk::NewPos(pos(1, 1, 1))).is_empty());
    assert!(!m.update(UpdateChunk::NewPos(pos(1, 1, 1)), Vec::new()));
    assert_eq!(m.central_pos, pos(0, 0, 0));
    let step = UpdateChunk::NewPos(pos(5, 0, 0));
    let missing = m.missing_chunks(step);
    assert_eq!(missing, vec![pos(2, -2, -2), pos(2, -2, 0), pos(2, 0, -2), pos(2, 0, 0)]);
    assert!(m.update(step, generated(&missing)));
    assert_eq!(m.central_pos, pos(2, 0, 0));
    assert_eq!(m.chunks.len(), 12);
    assert_eq!(visible_count(&m), 8);
    for c in m.chunks.iter() {
        assert_eq!(c.visible(), c.hash_pos.x >= 0);
    }
    let back = UpdateChunk::NewPos(pos(-3, 0, 0));
    assert!(m.missing_chunks(back).is_empty());
    assert!(m.update(back, Vec::new()));
    assert_eq!(m.central_pos, pos(0, 0, 0));
    for c in m.chunks.iter() {
        assert_eq!(c.visible(), c.hash_pos.x <= 0);
    }
}

#[test]
fn inner_radius_hides_the_chunks_inside() {
    let mut m = ChunkMesh::new(Length3D::origin(), ChunkRadius(1, 1), Some(ChunkRadius(1, 1)), 2, generator(2));
    let missing = m.missing_chunks(UpdateChunk::Forced);
    assert!(m.update(UpdateChunk::Forced, generated(&missing)));
    assert_eq!(m.chunks.len(), 8);
    assert_eq!(visible_count(&m), 0);
    assert!(m.fits_index_range());
    let r = m.generate_vertices();
    assert_eq!(r.len(), 3);
    assert!(r.iter().all(|(v, i, _)| v.is_empty() && i.is_empty()));
}

#[test]
fn visible_chunks_are_aggregated_per_purpose() {
    let mut m = ChunkMesh::new(Length3D::origin(), ChunkRadius(1, 1), None, 2, generator(2));
    let missing = m.missing_chunks(UpdateChunk::Forced);
    m.update(UpdateChunk::Forced, generated(&missing));
    assert!(m.fits_index_range());
    let r = m.generate_vertices();
    assert_eq!(r.len(), 3);
    assert_eq!(r[0].2, RenderDataPurpose::TerrainOpaque);
    assert_eq!(r[1].2, RenderDataPurpose::TerrainTransparent);
    assert_eq!(r[2].2, RenderDataPurpose::TerrainTranslucent);
    assert_eq!(r[0].0.len(), 32);
    assert_eq!(r[0].1.len(), 48);
    assert_eq!(&r[0].1[0..12], &[0, 1, 2, 3, 2, 1, 4, 5, 6, 7, 6, 5]);
    assert_eq!(r[0].1[47], 29);
    assert!(r[1].0.is_empty() && r[2].0.is_empty());
}

#[test]
fn inner_radius_stays_hidden_when_only_the_border_moves() {
    let mut m = ChunkMesh::new(Length3D::origin(), ChunkRadius(1, 1), Some(ChunkRadius(1, 100)), 2, generator(2));
    let missing = m.missing_chunks(UpdateChunk::Forced);
    m.update(UpdateChunk::Forced, generated(&missing));
    assert_eq!(visible_count(&m), 0);
    let step = UpdateChunk::NewPos(pos(5, 0, 0));
    let missing = m.missing_chunks(step);
    assert_eq!(missing.len(), 4);
    assert!(m.update(step, generated(&missing)));
    assert_eq!(m.central_pos, pos(2, 0, 0));
    assert_eq!(m.inner_central_pos, pos(0, 0, 0));
    assert_eq!(m.chunks.len(), 12);
    assert_eq!(visible_count(&m), 4);
    for c in m.chunks.iter() {
        assert_eq!(c.visible(), c.hash_pos.x == 1);
    }
}

#[test]
fn positions_step_up_to_the_ends_of_the_coordinates() {
    assert_eq!(key(isize::MAX - 1, 5, 0).right(), key(isize::MAX, 5, 0));
    assert_eq!(key(0, isize::MIN + 1, 0).bottom(), key(0, isize::MIN, 0));
    assert_eq!(key(7, isize::MAX - 1, -3).top(), key(7, isize::MAX, -3));
    assert_eq!(key(isize::MAX, 0, isize::MIN).front(), key(isize::MAX, 0, isize::MIN + 1));
    assert_eq!(key(isize::MIN + 1, 0, 0).neighbour(FaceDir::LEFT), key(isize::MIN, 0, 0));
    let p = key(1, isize::MAX - 1, 2);
    assert_eq!(p.top().bottom(), p);
}

#[test]
fn aggregation_moves_every_index_past_the_earlier_faces() {
    let v = ChunkVertex { x: 0, y: 0, z: 0, lowered: false, u: 0, v: 0, txtr: 0 };
    let mut chunks: Vec<Chunk> = Vec::new();
    load_chunk_into(&mut chunks, 2, pos(0, 0, 0),
        vec![(vec![v; 4], vec![0, 5], None, RenderDataPurpose::TerrainOpaque)]);
    load_chunk_into(&mut chunks, 2, pos(2, 0, 0), vec![
        (vec![v; 8], vec![1, 7], None, RenderDataPurpose::TerrainOpaque),
        (vec![v; 4], vec![3], None, RenderDataPurpose::TerrainTranslucent),
        (vec![v; 4], vec![2], None, RenderDataPurpose::BlockTextures),
    ]);
    load_chunk_into(&mut chunks, 2, pos(4, 0, 0),
        vec![(vec![v; 4], vec![9], None, RenderDataPurpose::TerrainOpaque)]);
    chunks[2].visible = false;
    let r = generator(2).aggregate_mesh(pos(100, 0, 0), &chunks);
    assert_eq!(r.len(), 3);
    assert_eq!(r[0].0.len(), 12);
    assert_eq!(r[0].1, vec![0, 5, 5, 11]);
    assert!(r[1].0.is_empty() && r[1].1.is_empty());
    assert_eq!(r[2].0.len(), 4);
    assert_eq!(r[2].1, vec![3]);
}
