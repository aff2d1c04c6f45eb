use matrixagon2::block::{BlockData, FaceDir, MeshType, RenderDataPurpose, TextureMapper, TransparencyType};
use matrixagon2::chunk_mesh::{Length3D, MeshPart, UpdateChunk};
use matrixagon2::mesh_util::ChunkVertex;
use matrixagon2::terrain::{merge_render_data, nonempty_render_data, RenderMesh, Terrain};
use matrixagon2::texture::TextureIdMapper;
use matrixagon2::world::WorldEvent;

fn vert(x: i32) -> ChunkVertex {
    ChunkVertex { x, y: 0, z: 0, lowered: false, u: 0, v: 0, txtr: 0 }
}

fn blocks() -> Vec<BlockData<'static>> {
    let b = BlockData {
        ident: "stone",
        texture_id: TextureMapper::All("stone"),
        mesh: MeshType::Cube,
        transparency: TransparencyType::Opaque,
    };
    vec![b; 7]
}

fn quad() -> Vec<MeshPart> {
    vec![(vec![vert(0); 4], vec![0, 1, 2, 3, 2, 1], Some(FaceDir::TOP), RenderDataPurpose::TerrainOpaque)]
}

fn cube(radius: i64, size: i64) -> Vec<(Length3D, Vec<MeshPart>)> {
    let mut r = Vec::new();
    for x in -radius..radius {
        for y in -radius..radius {
            for z in -radius..radius {
                r.push((Length3D::new(x * size, y * size, z * size), quad()));
            }
        }
    }
    r
}

#[test]
fn merging_appends_to_the_entry_of_the_same_purpose() {
    let mut render_data: Vec<RenderMesh> = Vec::new();
    merge_render_data(&mut render_data, vec![
        (vec![vert(1), vert(2)], vec![0, 1], RenderDataPurpose::TerrainOpaque),
        (vec![vert(3)], vec![0], RenderDataPurpose::TerrainTransparent),
        (vec![vert(4), vert(5), vert(6)], vec![2, 0], RenderDataPurpose::TerrainOpaque),
    ]);
    assert_eq!(render_data.len(), 2);
    assert_eq!(render_data[0].0, vec![vert(1), vert(2), vert(4), vert(5), vert(6)]);
    assert_eq!(render_data[0].1, vec![0, 1, 4, 2]);
    assert_eq!(render_data[0].2, RenderDataPurpose::TerrainOpaque);
    assert_eq!(render_data[1].0, vec![vert(3)]);
    assert_eq!(render_data[1].1, vec![0]);
    merge_render_data(&mut render_data, vec![(vec![vert(7)], vec![0], RenderDataPurpose::TerrainTransparent)]);
    assert_eq!(render_data[1].1, vec![0, 1]);
}

#[test]
fn empty_render_data_is_dropped() {
    let kept = nonempty_render_data(vec![
        (vec![], vec![], RenderDataPurpose::TerrainOpaque),
        (vec![vert(1)], vec![0], RenderDataPurpose::TerrainTransparent),
        (vec![vert(1)], vec![], RenderDataPurpose::TerrainTranslucent),
    ]);
    assert_eq!(kept.len(), 1);
    assert_eq!(kept[0].2, RenderDataPurpose::TerrainTransparent);
}

#[test]
fn terrain_without_textures_draws_nothing() {
    let mut t = Terrain::new(blocks(), 2, 2);
    assert!(t.respond_event(WorldEvent::UserPosition(Length3D::new(5, 0, 0)), Vec::new()).is_empty());
    assert!(t.chunk_mesh_mf.is_none());
    assert!(t.update().is_empty());
    assert!(t.chunk_update_mf);
}

#[test]
fn new_textures_load_the_chunks_around_the_origin() {
    let mut t = Terrain::new(blocks(), 2, 4);
    t.respond_event(WorldEvent::NewTextureMapper(TextureIdMapper::new(vec!["stone".to_string()])), cube(4, 2));
    let m = t.chunk_mesh_mf.as_ref().unwrap();
    assert_eq!(m.chunks.len(), 512);
    assert_eq!(m.chunks.iter().filter(|c| c.visible()).count(), 448);
    let r = t.update();
    assert_eq!(r.len(), 1);
    assert_eq!(r[0].2, RenderDataPurpose::TerrainOpaque);
    assert_eq!(r[0].0.len(), 448 * 4);
    assert_eq!(r[0].1.len(), 448 * 6);
    assert!(!t.chunk_update_mf);
    assert!(t.update().is_empty());
}

#[test]
fn spectators_do_not_move_the_chunks() {
    let mut t = Terrain::new(blocks(), 2, 4);
    t.respond_event(WorldEvent::NewTextureMapper(TextureIdMapper::new(vec!["stone".to_string()])), cube(4, 2));
    t.update();
    t.respond_event(WorldEvent::SpectatorMode(true), Vec::new());
    assert!(t.spectator_mode);
    t.respond_event(WorldEvent::UserPosition(Length3D::new(9, 0, 0)), Vec::new());
    assert_eq!(t.chunk_mesh_mf.as_ref().unwrap().central_pos, Length3D::origin());
    assert!(!t.chunk_update_mf);
    t.respond_event(WorldEvent::SpectatorMode(false), Vec::new());
    let step = UpdateChunk::NewPos(Length3D::new(9, 0, 0));
    let missing = t.chunk_mesh_mf.as_ref().unwrap().missing_chunks(step);
    assert_eq!(missing.len(), 128);
    let meshes = missing.iter().map(|p| (*p, quad())).collect();
    t.respond_event(WorldEvent::UserPosition(Length3D::new(9, 0, 0)), meshes);
    let m = t.chunk_mesh_mf.as_ref().unwrap();
    assert_eq!(m.central_pos, Length3D::new(4, 0, 0));
    assert_eq!(m.inner_central_pos, Length3D::new(2, 0, 0));
    assert_eq!(m.chunks.len(), 640);
    assert!(t.chunk_update_mf);
}
