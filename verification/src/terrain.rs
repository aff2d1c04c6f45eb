//! The terrain's render data: the meshes of the chunk meshes merged into one mesh per
//! render purpose, and the non-empty ones kept for drawing.
use vstd::prelude::*;
use crate::block::RenderDataPurpose;
use crate::mesh_util::{ChunkGeneratorMF, ChunkVertex, MAX_CHUNK_SIZE};
use crate::chunk_gen_mf::{aggregates, chunks_verts, mesh_wf};
use crate::chunk_mesh::{
    ChunkMesh, ChunkRadius, GeneratedChunk, Length3D, MAX_UNIT, UpdateChunk, cube_pos, has_mesh, rel_in_cube,
    spec_position_of, update_ok,
};
use crate::block::BlockData;
use crate::texture::TextureIdMapper;
use crate::world::WorldEvent;

verus! {

/// A mesh drawn for a render purpose: vertices, indices into them, the purpose.
pub type RenderMesh = (Vec<ChunkVertex>, Vec<u32>, RenderDataPurpose);

/// A render mesh as values.
pub type MeshView = (Seq<ChunkVertex>, Seq<u32>, RenderDataPurpose);

pub open spec fn mesh_view(m: RenderMesh) -> MeshView {
    (m.0@, m.1@, m.2)
}

pub open spec fn meshes_view(s: Seq<RenderMesh>) -> Seq<MeshView> {
    s.map_values(|m: RenderMesh| mesh_view(m))
}

/// The first entry of `acc`, from the entry `j` on, for the purpose `p`.
pub open spec fn purpose_index_from(acc: Seq<MeshView>, p: RenderDataPurpose, j: int) -> Option<int>
    decreases acc.len() - j,
{
    if j < 0 || j >= acc.len() {
        None
    } else if acc[j].2 == p {
        Some(j)
    } else {
        purpose_index_from(acc, p, j + 1)
    }
}

/// The first entry of `acc` for the purpose `p`.
pub open spec fn purpose_index(acc: Seq<MeshView>, p: RenderDataPurpose) -> Option<int> {
    purpose_index_from(acc, p, 0)
}

/// `acc` with the mesh `part` merged in: appended to the first entry of its purpose, its
/// indices moved past that entry's vertices, or added as a new entry if there is none.
pub open spec fn merge_step(acc: Seq<MeshView>, part: MeshView) -> Seq<MeshView> {
    match purpose_index(acc, part.2) {
        Some(j) => acc.update(j, (
            acc[j].0 + part.0,
            acc[j].1 + part.1.map_values(|x: u32| (x + acc[j].0.len()) as u32),
            part.2,
        )),
        None => acc.push(part),
    }
}

/// `acc` with the meshes `parts` merged in, in order.
pub open spec fn merge_all(acc: Seq<MeshView>, parts: Seq<MeshView>) -> Seq<MeshView>
    decreases parts.len(),
{
    if parts.len() == 0 {
        acc
    } else {
        merge_step(merge_all(acc, parts.drop_last()), parts.last())
    }
}

/// Merging `part` into `acc` keeps every index within `u32`: the entry it joins has at
/// most `u32::MAX` vertices, and no moved index passes `u32::MAX`.
pub open spec fn step_ok(acc: Seq<MeshView>, part: MeshView) -> bool {
    match purpose_index(acc, part.2) {
        Some(j) => {
            &&& acc[j].0.len() <= u32::MAX
            &&& forall|k: int| 0 <= k < part.1.len() ==> (#[trigger] part.1[k]) + acc[j].0.len() <= u32::MAX
        },
        None => true,
    }
}

/// Merging the meshes `parts` into `acc`, in order, keeps every index within `u32`.
pub open spec fn merge_ok(acc: Seq<MeshView>, parts: Seq<MeshView>) -> bool
    decreases parts.len(),
{
    if parts.len() == 0 {
        true
    } else {
        merge_ok(acc, parts.drop_last()) && step_ok(merge_all(acc, parts.drop_last()), parts.last())
    }
}

proof fn lemma_merge_prefix(acc: Seq<MeshView>, parts: Seq<MeshView>, n: int)
    requires
        0 <= n < parts.len(),
        merge_ok(acc, parts),
    ensures
        step_ok(merge_all(acc, parts.subrange(0, n)), parts[n]),
        merge_all(acc, parts.subrange(0, n + 1)) == merge_step(merge_all(acc, parts.subrange(0, n)), parts[n]),
    decreases parts.len() - n,
{
    if n + 1 == parts.len() {
        assert(parts.subrange(0, n) =~= parts.drop_last());
        assert(parts.subrange(0, n + 1) =~= parts);
    } else {
        lemma_merge_prefix(acc, parts.drop_last(), n);
        assert(parts.drop_last().subrange(0, n) =~= parts.subrange(0, n));
        assert(parts.drop_last().subrange(0, n + 1) =~= parts.subrange(0, n + 1));
    }
    assert(parts.subrange(0, n + 1).drop_last() =~= parts.subrange(0, n));
}

/// Merges one mesh into the render data, as [`merge_step`] says.
fn merge_part(render_data: &mut Vec<RenderMesh>, verts: Vec<ChunkVertex>, inds: Vec<u32>, purpose: RenderDataPurpose)
    requires
        step_ok(meshes_view(old(render_data)@), (verts@, inds@, purpose)),
    ensures
        meshes_view(final(render_data)@) == merge_step(meshes_view(old(render_data)@), (verts@, inds@, purpose)),
{
    let ghost acc = meshes_view(render_data@);
    let mut j: usize = 0;
    while j < render_data.len()
        invariant
            acc == meshes_view(render_data@),
            acc == meshes_view(old(render_data)@),
            j <= render_data@.len(),
            purpose_index(acc, purpose) == purpose_index_from(acc, purpose, j as int),
            step_ok(acc, (verts@, inds@, purpose)),
        decreases render_data@.len() - j,
    {
        if render_data[j].2 == purpose {
            let ghost old_rd = render_data@;
            let (mut v, mut i, p) = render_data.remove(j);
            proof {
                assert(acc[j as int] == mesh_view(old_rd[j as int]));
                assert(acc[j as int].2 == purpose);
                assert(purpose_index(acc, purpose) == Some(j as int));
                let part = (verts@, inds@, purpose);
                assert(step_ok(acc, part));
                assert(purpose_index(acc, part.2) == Some(j as int));
                assert(forall|k2: int| 0 <= k2 < part.1.len() ==> (#[trigger] part.1[k2]) + acc[j as int].0.len() <= u32::MAX);
            }
            let ind_count = v.len() as u32;
            let mut offsetted: Vec<u32> = Vec::new();
            let mut k: usize = 0;
            while k < inds.len()
                invariant
                    j < acc.len(),
                    k <= inds@.len(),
                    ind_count == acc[j as int].0.len(),
                    forall|k2: int| 0 <= k2 < inds@.len() ==> (#[trigger] inds@[k2]) + acc[j as int].0.len() <= u32::MAX,
                    offsetted@ == inds@.subrange(0, k as int).map_values(|x: u32| (x + acc[j as int].0.len()) as u32),
                decreases inds@.len() - k,
            {
                offsetted.push(inds[k] + ind_count);
                proof {
                    assert(inds@.subrange(0, k + 1).map_values(|x: u32| (x + acc[j as int].0.len()) as u32)
                        =~= inds@.subrange(0, k as int).map_values(|x: u32| (x + acc[j as int].0.len()) as u32)
                            .push((inds@[k as int] + acc[j as int].0.len()) as u32));
                }
                k = k + 1;
            }
            proof {
                assert(inds@.subrange(0, inds@.len() as int) =~= inds@);
            }
            let ghost part_verts = verts@;
            let ghost v0 = v@;
            let ghost i0 = i@;
            let ghost off = offsetted@;
            let mut moved = verts;
            v.append(&mut moved);
            i.append(&mut offsetted);
            let ghost entry = (v@, i@, p);
            render_data.insert(j, (v, i, p));
            proof {
                assert(acc[j as int].2 == purpose);
                assert(purpose_index(acc, purpose) == Some(j as int));
                assert(v0 == acc[j as int].0);
                assert(i0 == acc[j as int].1);
                assert(render_data@ =~= old_rd.update(j as int, render_data@[j as int]));
                assert(mesh_view(render_data@[j as int]) == (v0 + part_verts, i0 + off, purpose));
                assert forall|q: int| 0 <= q < acc.len() implies
                    #[trigger] meshes_view(render_data@)[q] == merge_step(acc, (part_verts, inds@, purpose))[q] by {
                    if q != j {
                        assert(render_data@[q] == old_rd[q]);
                    }
                }
                assert(meshes_view(render_data@) =~= merge_step(acc, (part_verts, inds@, purpose)));
            }
            return;
        }
        j = j + 1;
    }
    render_data.push((verts, inds, purpose));
    proof {
        assert(meshes_view(render_data@) =~= acc.push((verts@, inds@, purpose)));
    }
}

/// Merges the meshes `rd` into the render data, one after another, each into the first
/// entry of its purpose with its indices moved past that entry's vertices, or as a new
/// entry.
pub fn merge_render_data(render_data: &mut Vec<RenderMesh>, rd: Vec<RenderMesh>)
    requires
        merge_ok(meshes_view(old(render_data)@), meshes_view(rd@)),
    ensures
        meshes_view(final(render_data)@) == merge_all(meshes_view(old(render_data)@), meshes_view(rd@)),
{
    let ghost parts = meshes_view(rd@);
    let ghost acc0 = meshes_view(render_data@);
    let mut rd = rd;
    let mut n: usize = 0;
    let total = rd.len();
    proof {
        assert(parts.len() == total);
        assert(parts.subrange(0, 0) =~= Seq::<MeshView>::empty());
        assert(rd@.map_values(|m: RenderMesh| mesh_view(m)) =~= parts.subrange(0, parts.len() as int));
    }
    while rd.len() > 0
        invariant
            n + rd@.len() == parts.len() <= usize::MAX,
            meshes_view(rd@) == parts.subrange(n as int, parts.len() as int),
            meshes_view(render_data@) == merge_all(acc0, parts.subrange(0, n as int)),
            merge_ok(acc0, parts),
        decreases rd@.len(),
    {
        let ghost rd0 = rd@;
        let (verts, inds, purpose) = rd.remove(0);
        proof {
            assert(meshes_view(rd0)[0] == mesh_view(rd0[0]));
            assert(parts[n as int] == mesh_view(rd0[0]));
            lemma_merge_prefix(acc0, parts, n as int);
            assert forall|q: int| 0 <= q < rd@.len() implies
                #[trigger] meshes_view(rd@)[q] == parts.subrange(n + 1, parts.len() as int)[q] by {
                assert(rd@[q] == rd0[q + 1]);
                assert(meshes_view(rd0)[q + 1] == mesh_view(rd0[q + 1]));
            }
            assert(meshes_view(rd@) =~= parts.subrange(n + 1, parts.len() as int));
        }
        merge_part(render_data, verts, inds, purpose);
        n = n + 1;
    }
    proof {
        assert(parts.subrange(0, parts.len() as int) =~= parts);
    }
}

/// A render mesh with vertices and indices.
pub open spec fn nonempty(m: MeshView) -> bool {
    m.0.len() != 0 && m.1.len() != 0
}

/// The render meshes that have vertices and indices, in order.
pub fn nonempty_render_data(render_data: Vec<RenderMesh>) -> (r: Vec<RenderMesh>)
    ensures
        meshes_view(r@) == meshes_view(render_data@).filter(|m: MeshView| nonempty(m)),
{
    let ghost all = meshes_view(render_data@);
    let mut rest = render_data;
    let mut r: Vec<RenderMesh> = Vec::new();
    let mut n: usize = 0;
    let total = rest.len();
    proof {
        assert(all.len() == total);
        reveal(Seq::filter);
        assert(all.subrange(0, 0) =~= Seq::<MeshView>::empty());
        assert(meshes_view(rest@) =~= all.subrange(0, all.len() as int));
    }
    while rest.len() > 0
        invariant
            n + rest@.len() == all.len() <= usize::MAX,
            meshes_view(rest@) == all.subrange(n as int, all.len() as int),
            meshes_view(r@) == all.subrange(0, n as int).filter(|m: MeshView| nonempty(m)),
        decreases rest@.len(),
    {
        let ghost rest0 = rest@;
        let ghost r0 = r@;
        let m = rest.remove(0);
        proof {
            assert(meshes_view(rest0)[0] == mesh_view(rest0[0]));
            assert(all[n as int] == mesh_view(rest0[0]));
            assert forall|q: int| 0 <= q < rest@.len() implies
                #[trigger] meshes_view(rest@)[q] == all.subrange(n + 1, all.len() as int)[q] by {
                assert(rest@[q] == rest0[q + 1]);
                assert(meshes_view(rest0)[q + 1] == mesh_view(rest0[q + 1]));
            }
            assert(meshes_view(rest@) =~= all.subrange(n + 1, all.len() as int));
            reveal(Seq::filter);
            assert(all.subrange(0, n + 1).drop_last() =~= all.subrange(0, n as int));
        }
        if m.0.len() != 0 && m.1.len() != 0 {
            r.push(m);
            proof {
                assert(meshes_view(r@) =~= meshes_view(r0).push(all[n as int]));
            }
        }
        n = n + 1;
    }
    proof {
        assert(all.subrange(0, all.len() as int) =~= all);
    }
    r
}

/// Every entry's indices refer to its own vertices.
pub open spec fn all_wf(s: Seq<MeshView>) -> bool {
    forall|i: int| 0 <= i < s.len() ==> mesh_wf((#[trigger] s[i]).0, s[i].1)
}

/// No two entries share a render purpose.
pub open spec fn purposes_distinct(s: Seq<MeshView>) -> bool {
    forall|i: int, j: int| 0 <= i < s.len() && 0 <= j < s.len() && i != j ==> (#[trigger] s[i]).2 != (#[trigger] s[j]).2
}

proof fn lemma_purpose_index_from(acc: Seq<MeshView>, p: RenderDataPurpose, j: int)
    requires
        0 <= j <= acc.len(),
    ensures
        purpose_index_from(acc, p, j) matches Some(k) ==> j <= k < acc.len() && acc[k].2 == p,
        purpose_index_from(acc, p, j) is None ==> forall|k: int| j <= k < acc.len() ==> (#[trigger] acc[k]).2 != p,
    decreases acc.len() - j,
{
    if j < acc.len() && acc[j].2 != p {
        lemma_purpose_index_from(acc, p, j + 1);
    }
}

proof fn lemma_merge_step_laws(acc: Seq<MeshView>, part: MeshView)
    requires
        step_ok(acc, part),
    ensures
        all_wf(acc) && mesh_wf(part.0, part.1) ==> all_wf(merge_step(acc, part)),
        purposes_distinct(acc) ==> purposes_distinct(merge_step(acc, part)),
{
    lemma_purpose_index_from(acc, part.2, 0);
    let m = merge_step(acc, part);
    match purpose_index(acc, part.2) {
        Some(j) => {
            if all_wf(acc) && mesh_wf(part.0, part.1) {
                let l = acc[j].0.len();
                let off = part.1.map_values(|x: u32| (x + l) as u32);
                assert forall|k: int| 0 <= k < m[j].1.len() implies (#[trigger] m[j].1[k] as int) < m[j].0.len() by {
                    if k < acc[j].1.len() {
                        assert(mesh_wf(acc[j].0, acc[j].1));
                        assert(m[j].1[k] == acc[j].1[k]);
                    } else {
                        let q = k - acc[j].1.len();
                        assert(m[j].1[k] == off[q]);
                        assert((part.1[q] as int) < part.0.len());
                        assert(part.1[q] + l <= u32::MAX);
                    }
                }
                assert forall|i: int| 0 <= i < m.len() implies mesh_wf((#[trigger] m[i]).0, m[i].1) by {
                    if i != j {
                        assert(m[i] == acc[i]);
                    }
                }
            }
        },
        None => {},
    }
}

/// Merging well-formed meshes into well-formed render data leaves it well formed: every
/// index refers to a vertex of its own entry.
pub proof fn lemma_merge_keeps_wf(acc: Seq<MeshView>, parts: Seq<MeshView>)
    requires
        merge_ok(acc, parts),
        all_wf(acc),
        all_wf(parts),
    ensures
        all_wf(merge_all(acc, parts)),
    decreases parts.len(),
{
    if parts.len() > 0 {
        assert(all_wf(parts.drop_last())) by {
            assert forall|i: int| 0 <= i < parts.drop_last().len() implies
                mesh_wf((#[trigger] parts.drop_last()[i]).0, parts.drop_last()[i].1) by {
                assert(parts.drop_last()[i] == parts[i]);
            }
        }
        lemma_merge_keeps_wf(acc, parts.drop_last());
        assert(mesh_wf(parts.last().0, parts.last().1));
        lemma_merge_step_laws(merge_all(acc, parts.drop_last()), parts.last());
    }
}

/// Merging into render data with one entry per purpose leaves one entry per purpose.
pub proof fn lemma_merge_keeps_purposes_distinct(acc: Seq<MeshView>, parts: Seq<MeshView>)
    requires
        merge_ok(acc, parts),
        purposes_distinct(acc),
    ensures
        purposes_distinct(merge_all(acc, parts)),
    decreases parts.len(),
{
    if parts.len() > 0 {
        lemma_merge_keeps_purposes_distinct(acc, parts.drop_last());
        lemma_merge_step_laws(merge_all(acc, parts.drop_last()), parts.last());
    }
}

/// Meshes of pairwise distinct purposes, merged into empty render data, stay as they are.
pub proof fn lemma_merge_distinct(parts: Seq<MeshView>)
    requires
        purposes_distinct(parts),
    ensures
        merge_ok(Seq::empty(), parts),
        merge_all(Seq::empty(), parts) == parts,
    decreases parts.len(),
{
    if parts.len() > 0 {
        let prev = parts.drop_last();
        assert(purposes_distinct(prev)) by {
            assert forall|i: int, j: int| 0 <= i < prev.len() && 0 <= j < prev.len() && i != j implies
                (#[trigger] prev[i]).2 != (#[trigger] prev[j]).2 by {
                assert(prev[i] == parts[i] && prev[j] == parts[j]);
            }
        }
        lemma_merge_distinct(prev);
        lemma_purpose_index_from(prev, parts.last().2, 0);
        if purpose_index(prev, parts.last().2) is Some {
            let k = purpose_index(prev, parts.last().2)->Some_0;
            assert(prev[k] == parts[k]);
            assert(parts[parts.len() - 1] == parts.last());
        }
        assert(prev.push(parts.last()) =~= parts);
    }
}

/// The radius, in chunks, of the chunks the terrain keeps loaded around the player: two
/// border units.
pub open spec fn terrain_radius(chunk_size: int, border_unit: int) -> int {
    2 * border_unit / chunk_size
}

/// The terrain: the block table, the chunks loaded around the player (once textures are
/// known), whether their mesh must be rebuilt, and whether the player flies around as a
/// spectator, with the chunks no longer following them.
pub struct Terrain<'b> {
    pub block_ind: Vec<BlockData<'b>>,
    /// the chunk size, in blocks
    pub chunk_size: u32,
    /// the border unit, in blocks
    pub border_unit: u32,
    pub chunk_mesh_mf: Option<ChunkMesh<'b>>,
    pub chunk_update_mf: bool,
    pub spectator_mode: bool,
}

impl<'b> Terrain<'b> {
    pub open spec fn wf(&self) -> bool {
        &&& 1 <= self.chunk_size <= MAX_CHUNK_SIZE
        &&& 1 <= self.border_unit <= MAX_UNIT
        &&& self.chunk_mesh_mf matches Some(m) ==> m.wf() && m.chunk_size == self.chunk_size
    }

    /// The chunk `k` lies within the radius loaded around the world origin.
    pub open spec fn initial_chunk(&self, k: crate::chunk_mesh::Position) -> bool {
        rel_in_cube(k, spec_position_of(Length3D { x: 0, y: 0, z: 0 }, self.chunk_size as int),
            terrain_radius(self.chunk_size as int, self.border_unit as int))
    }

    /// The corner of the chunk `k` of the radius loaded around the world origin.
    pub open spec fn initial_pos(&self, k: crate::chunk_mesh::Position) -> Length3D {
        cube_pos(Length3D { x: 0, y: 0, z: 0 }, spec_position_of(Length3D { x: 0, y: 0, z: 0 }, self.chunk_size as int),
            k, self.chunk_size as int)
    }

    /// The generated chunks an event needs: for a new position of the player, those the
    /// chunk mesh loads; for new textures, every chunk of the radius around the world origin.
    pub open spec fn meshes_cover(&self, event: WorldEvent, meshes: Seq<GeneratedChunk>) -> bool {
        match event {
            WorldEvent::UserPosition(p) => !self.spectator_mode && self.chunk_mesh_mf is Some ==> {
                &&& update_ok(UpdateChunk::NewPos(p))
                &&& forall|k: crate::chunk_mesh::Position| #[trigger] self.chunk_mesh_mf->Some_0.will_load(UpdateChunk::NewPos(p), k)
                    ==> has_mesh(meshes, self.chunk_mesh_mf->Some_0.load_pos(UpdateChunk::NewPos(p), k))
            },
            WorldEvent::NewTextureMapper(_) => forall|k: crate::chunk_mesh::Position| #[trigger] self.initial_chunk(k)
                ==> has_mesh(meshes, self.initial_pos(k)),
            _ => true,
        }
    }

    /// `m` is the chunk mesh new textures `mapper` bring: around the world origin, no chunk
    /// loaded, a border radius of two border units followed a border unit at a time, an
    /// inner radius of two chunks followed a chunk at a time, and a generator of the
    /// terrain's blocks and chunk size with the textures `mapper`.
    pub open spec fn fresh_chunk_mesh(&self, m: ChunkMesh<'b>, mapper: TextureIdMapper) -> bool {
        &&& m.wf()
        &&& m.central_pos == Length3D { x: 0, y: 0, z: 0 }
        &&& m.inner_central_pos == Length3D { x: 0, y: 0, z: 0 }
        &&& m.chunk_size == self.chunk_size
        &&& m.border_unit == self.border_unit
        &&& m.chunk_outer_radius == 2
        &&& m.chunk_outer_update_radius == 1
        &&& m.subchunk_outer_radius == terrain_radius(self.chunk_size as int, self.border_unit as int)
        &&& m.chunk_inner_radius == Some(2u32)
        &&& m.chunk_inner_update_radius == Some(1u32)
        &&& m.generator.chunk_size == self.chunk_size
        &&& m.generator.block_ind@ == self.block_ind@
        &&& m.generator.txtr_id_mapper == mapper
        &&& m.chunks@.len() == 0
    }

    /// No chunk is loaded until textures are known; the first update rebuilds the mesh.
    pub fn new(block_ind: Vec<BlockData<'b>>, chunk_size: u32, border_unit: u32) -> (r: Self)
        requires
            1 <= chunk_size <= MAX_CHUNK_SIZE,
            1 <= border_unit <= MAX_UNIT,
        ensures
            r.wf(),
            r.block_ind@ == block_ind@,
            r.chunk_size == chunk_size,
            r.border_unit == border_unit,
            r.chunk_mesh_mf is None,
            r.chunk_update_mf,
            !r.spectator_mode,
    {
        Terrain { block_ind, chunk_size, border_unit, chunk_mesh_mf: None, chunk_update_mf: true, spectator_mode: false }
    }

    /// The chunk generator for the textures `txtr_id_mapper`.
    pub fn mesh_generator(&self, txtr_id_mapper: TextureIdMapper) -> (r: ChunkGeneratorMF<'b>)
        ensures
            r.chunk_size == self.chunk_size,
            r.block_ind@ == self.block_ind@,
            r.txtr_id_mapper == txtr_id_mapper,
    {
        let mut blocks: Vec<BlockData<'b>> = Vec::new();
        let mut i: usize = 0;
        while i < self.block_ind.len()
            invariant
                i <= self.block_ind@.len(),
                blocks@ == self.block_ind@.subrange(0, i as int),
            decreases self.block_ind@.len() - i,
        {
            blocks.push(self.block_ind[i]);
            proof {
                assert(self.block_ind@.subrange(0, i + 1) =~= self.block_ind@.subrange(0, i as int).push(self.block_ind@[i as int]));
            }
            i = i + 1;
        }
        proof {
            assert(self.block_ind@.subrange(0, self.block_ind@.len() as int) =~= self.block_ind@);
        }
        ChunkGeneratorMF::new(self.chunk_size, blocks, txtr_id_mapper)
    }

    /// The corners of the chunks whose meshes new textures need: every chunk of the radius
    /// loaded around the world origin, each once.
    pub fn texture_chunks(&self) -> (r: Vec<Length3D>)
        requires
            self.wf(),
        ensures
            forall|k: crate::chunk_mesh::Position| #[trigger] self.initial_chunk(k) ==> r@.contains(self.initial_pos(k)),
            forall|i: int| 0 <= i < r@.len() ==> {
                &&& self.initial_chunk(spec_position_of(#[trigger] r@[i], self.chunk_size as int))
                &&& r@[i] == self.initial_pos(spec_position_of(r@[i], self.chunk_size as int))
            },
    {
        let generator = self.mesh_generator(TextureIdMapper::new(Vec::new()));
        let fresh = ChunkMesh::new(Length3D::origin(), ChunkRadius(2, 1), Some(ChunkRadius(2, 1)), self.border_unit, generator);
        let r = fresh.missing_chunks(UpdateChunk::Forced);
        proof {
            assert forall|k: crate::chunk_mesh::Position| #[trigger] self.initial_chunk(k) implies r@.contains(self.initial_pos(k)) by {
                assert(fresh.will_load(UpdateChunk::Forced, k));
            }
        }
        r
    }

    /// Answers an event, with the meshes generated for the chunks it loads: a new position
    /// of the player updates the chunks around them, unless in spectator mode, and marks
    /// the mesh for rebuilding if the drawn chunks changed; new textures make a new chunk
    /// mesh around the world origin, with a border radius and an inner radius of two border
    /// units, refreshed at once; the spectator mode is recorded. Emits no event.
    pub fn respond_event(&mut self, event: WorldEvent, meshes: Vec<GeneratedChunk>) -> (r: Vec<WorldEvent>)
        requires
            old(self).wf(),
            crate::chunk_mesh::meshes_wf(meshes@),
            old(self).meshes_cover(event, meshes@),
        ensures
            final(self).wf(),
            r@.len() == 0,
            final(self).block_ind == old(self).block_ind,
            final(self).chunk_size == old(self).chunk_size,
            final(self).border_unit == old(self).border_unit,
            match event {
                WorldEvent::UserPosition(p) => if !old(self).spectator_mode && old(self).chunk_mesh_mf is Some {
                    &&& final(self).chunk_mesh_mf is Some
                    &&& crate::chunk_mesh::updated(old(self).chunk_mesh_mf->Some_0, UpdateChunk::NewPos(p), meshes@,
                        final(self).chunk_mesh_mf->Some_0, old(self).chunk_mesh_mf->Some_0.changes(UpdateChunk::NewPos(p)))
                    &&& final(self).chunk_update_mf == (old(self).chunk_update_mf
                        || old(self).chunk_mesh_mf->Some_0.changes(UpdateChunk::NewPos(p)))
                    &&& final(self).spectator_mode == old(self).spectator_mode
                } else {
                    *final(self) == *old(self)
                },
                WorldEvent::NewTextureMapper(mapper) => {
                    &&& final(self).chunk_mesh_mf is Some
                    &&& exists|fresh: ChunkMesh<'b>| {
                        &&& #[trigger] old(self).fresh_chunk_mesh(fresh, mapper)
                        &&& crate::chunk_mesh::updated(fresh, UpdateChunk::Forced, meshes@,
                            final(self).chunk_mesh_mf->Some_0, fresh.changes(UpdateChunk::Forced))
                    }
                    &&& final(self).chunk_update_mf == old(self).chunk_update_mf
                    &&& final(self).spectator_mode == old(self).spectator_mode
                },
                WorldEvent::SpectatorMode(e) => *final(self) == (Terrain { spectator_mode: e, ..*old(self) }),
                _ => *final(self) == *old(self),
            },
    {
        match event {
            WorldEvent::UserPosition(pos) => {
                if !self.spectator_mode {
                    match self.chunk_mesh_mf.take() {
                        Some(mut chunk_mesh) => {
                            let need_update = chunk_mesh.update(UpdateChunk::NewPos(pos), meshes);
                            self.chunk_update_mf = self.chunk_update_mf || need_update;
                            self.chunk_mesh_mf = Some(chunk_mesh);
                        },
                        None => {},
                    }
                }
            },
            WorldEvent::NewTextureMapper(txtr_mapper) => {
                let ghost txtr_mapper_spec = txtr_mapper;
                let generator = self.mesh_generator(txtr_mapper);
                let mut chunk_mesh = ChunkMesh::new(
                    Length3D::origin(), ChunkRadius(2, 1), Some(ChunkRadius(2, 1)), self.border_unit, generator);
                proof {
                    assert forall|k: crate::chunk_mesh::Position| #[trigger] chunk_mesh.will_load(UpdateChunk::Forced, k)
                        implies has_mesh(meshes@, chunk_mesh.load_pos(UpdateChunk::Forced, k)) by {
                        assert(self.initial_chunk(k));
                    }
                }
                let ghost fresh = chunk_mesh;
                chunk_mesh.update(UpdateChunk::Forced, meshes);
                proof {
                    assert(self.fresh_chunk_mesh(fresh, txtr_mapper_spec));
                    assert(crate::chunk_mesh::updated(fresh, UpdateChunk::Forced, meshes@, chunk_mesh, fresh.changes(UpdateChunk::Forced)));
                }
                self.chunk_mesh_mf = Some(chunk_mesh);
            },
            WorldEvent::SpectatorMode(enabled) => {
                self.spectator_mode = enabled;
            },
            _ => {},
        }
        Vec::new()
    }

    /// Rebuilds the terrain's render data, if marked: the chunk mesh's meshes, merged into
    /// one per render purpose, keeping the non-empty ones, and clears the mark. Returns no
    /// render data when nothing was rebuilt.
    pub fn update(&mut self) -> (r: Vec<RenderMesh>)
        requires
            old(self).wf(),
            old(self).chunk_mesh_mf matches Some(m) ==> chunks_verts(m.chunks@, m.chunks@.len() as int) <= u32::MAX,
        ensures
            final(self).wf(),
            old(self).chunk_update_mf && old(self).chunk_mesh_mf is Some ==> {
                &&& *final(self) == (Terrain { chunk_update_mf: false, ..*old(self) })
                &&& exists|agg: Seq<RenderMesh>| aggregates(agg, old(self).chunk_mesh_mf->Some_0.chunks@)
                    && meshes_view(r@) == meshes_view(agg).filter(|m: MeshView| nonempty(m))
            },
            !(old(self).chunk_update_mf && old(self).chunk_mesh_mf is Some) ==> {
                &&& *final(self) == *old(self)
                &&& r@.len() == 0
            },
    {
        if self.chunk_update_mf {
            match self.chunk_mesh_mf.take() {
                Some(mut chunk_mesh) => {
                    let agg = chunk_mesh.generate_vertices();
                    let mut render_data: Vec<RenderMesh> = Vec::new();
                    proof {
                        let v = meshes_view(agg@);
                        assert(purposes_distinct(v)) by {
                            assert(v[0].2 == agg@[0].2);
                            assert(v[1].2 == agg@[1].2);
                            assert(v[2].2 == agg@[2].2);
                        }
                        lemma_merge_distinct(v);
                        assert(meshes_view(render_data@) =~= Seq::<MeshView>::empty());
                    }
                    merge_render_data(&mut render_data, agg);
                    self.chunk_mesh_mf = Some(chunk_mesh);
                    self.chunk_update_mf = false;
                    return nonempty_render_data(render_data);
                },
                None => {},
            }
        }
        Vec::new()
    }
}

} // verus!
