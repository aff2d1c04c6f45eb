//! The meshing chunk generator: a chunk's mesh from its terrain, and the aggregation of the
//! visible chunks' meshes into one mesh per render purpose.
use vstd::prelude::*;
use crate::block::{FaceDir, RenderDataPurpose};
use crate::chunk_mesh::{Chunk, Length3D, MeshPart};
use crate::mesh_util::{
    ChunkGeneratorMF, ChunkVertex, face_indices, face_index_pattern, xcross_indices, xcross_index_pattern,
};
use crate::mesh_fill::{MAX_FACES, PlacedFace, faces_mesh, part_holds};
use crate::mesh_sparse::{PlacedPlant, plants_mesh};
use crate::terrain_gen::TerrainColumns;

verus! {

/// Every index of the mesh refers to one of its vertices.
pub open spec fn mesh_wf(verts: Seq<ChunkVertex>, inds: Seq<u32>) -> bool {
    forall|k: int| 0 <= k < inds.len() ==> (#[trigger] inds[k] as int) < verts.len()
}

/// A list of faces makes four vertices and six indices per face, all indices in range.
pub proof fn lemma_faces_mesh_wf(s: Seq<PlacedFace>)
    requires
        s.len() <= MAX_FACES,
    ensures
        faces_mesh(s).0.len() == 4 * s.len(),
        faces_mesh(s).1.len() == 6 * s.len(),
        mesh_wf(faces_mesh(s).0, faces_mesh(s).1),
    decreases s.len(),
{
    if s.len() > 0 {
        let prev = s.drop_last();
        lemma_faces_mesh_wf(prev);
        let f = s.last();
        let ofs = 4 * (s.len() - 1);
        let fi = face_indices(f.dir, ofs);
        assert forall|k: int| 0 <= k < fi.len() implies (#[trigger] fi[k] as int) < 4 * s.len() by {
            let p = face_index_pattern(f.dir);
            assert(0 <= p[k] < 4);
        }
        let m = faces_mesh(s);
        assert forall|k: int| 0 <= k < m.1.len() implies (#[trigger] m.1[k] as int) < m.0.len() by {
            if k >= faces_mesh(prev).1.len() {
                assert(m.1[k] == fi[k - faces_mesh(prev).1.len()]);
            } else {
                assert(m.1[k] == faces_mesh(prev).1[k]);
            }
        }
    }
}

/// A list of plants makes eight vertices and twelve indices per plant, all indices in range.
pub proof fn lemma_plants_mesh_wf(s: Seq<PlacedPlant>)
    requires
        s.len() <= MAX_FACES,
    ensures
        plants_mesh(s).0.len() == 8 * s.len(),
        plants_mesh(s).1.len() == 12 * s.len(),
        mesh_wf(plants_mesh(s).0, plants_mesh(s).1),
    decreases s.len(),
{
    if s.len() > 0 {
        let prev = s.drop_last();
        lemma_plants_mesh_wf(prev);
        let ofs = 8 * (s.len() - 1);
        let xi = xcross_indices(ofs);
        assert forall|k: int| 0 <= k < xi.len() implies (#[trigger] xi[k] as int) < 8 * s.len() by {
            let p = xcross_index_pattern();
            assert(0 <= p[k] < 8);
        }
        let m = plants_mesh(s);
        assert forall|k: int| 0 <= k < m.1.len() implies (#[trigger] m.1[k] as int) < m.0.len() by {
            if k >= plants_mesh(prev).1.len() {
                assert(m.1[k] == xi[k - plants_mesh(prev).1.len()]);
            } else {
                assert(m.1[k] == plants_mesh(prev).1[k]);
            }
        }
    }
}

impl<'b> ChunkGeneratorMF<'b> {
    /// The mesh of the chunk with its corner at `pos`: the six parts of its solid terrain,
    /// one per face direction, then its plants, then its fluid surface.
    pub fn generate_mesh(&self, pos: (i32, i32, i32), cols: &TerrainColumns) -> (r: Vec<MeshPart>)
        requires
            self.fill_input_ok(*cols, pos, pos),
        ensures
            r@.len() == 8,
            r@[0].2 == Some(FaceDir::TOP) && r@[0].3 == RenderDataPurpose::TerrainOpaque,
            r@[1].2 == Some(FaceDir::BOTTOM) && r@[1].3 == RenderDataPurpose::TerrainOpaque,
            r@[2].2 == Some(FaceDir::LEFT) && r@[2].3 == RenderDataPurpose::TerrainOpaque,
            r@[3].2 == Some(FaceDir::RIGHT) && r@[3].3 == RenderDataPurpose::TerrainOpaque,
            r@[4].2 == Some(FaceDir::FRONT) && r@[4].3 == RenderDataPurpose::TerrainOpaque,
            r@[5].2 == Some(FaceDir::BACK) && r@[5].3 == RenderDataPurpose::TerrainOpaque,
            forall|k: int| 0 <= k < 6 ==> (#[trigger] r@[k]).0@ == faces_mesh(self.fill_faces(*cols, pos, pos, r@[k].2->Some_0)).0
                && r@[k].1@ == faces_mesh(self.fill_faces(*cols, pos, pos, r@[k].2->Some_0)).1,
            r@[6].0@ == plants_mesh(self.plants_all(*cols, pos, pos, self.chunk_size as int)).0,
            r@[6].1@ == plants_mesh(self.plants_all(*cols, pos, pos, self.chunk_size as int)).1,
            r@[6].2 is None && r@[6].3 == RenderDataPurpose::TerrainTransparent,
            r@[7].0@ == faces_mesh(self.fluid_all(*cols, pos, pos, self.chunk_size + 1)).0,
            r@[7].1@ == faces_mesh(self.fluid_all(*cols, pos, pos, self.chunk_size + 1)).1,
            r@[7].2 is None && r@[7].3 == RenderDataPurpose::TerrainTranslucent,
            forall|k: int| 0 <= k < 8 ==> mesh_wf((#[trigger] r@[k]).0@, r@[k].1@),
    {
        let opaque_cube_mesh = self.voluminous_opaque_cubes_mesh(pos, pos, cols);
        let transparent_floral_mesh = self.sparse_transparent_floral_mesh(pos, pos, cols);
        let translucent_fluid_mesh = self.temporary_fluid_mesher(pos, pos, cols);
        proof {
            let c = *cols;
            let e = self.chunk_size + 1;
            self.lemma_all_len(c, pos, pos, FaceDir::TOP, e);
            self.lemma_all_len(c, pos, pos, FaceDir::BOTTOM, e);
            self.lemma_all_len(c, pos, pos, FaceDir::LEFT, e);
            self.lemma_all_len(c, pos, pos, FaceDir::RIGHT, e);
            self.lemma_all_len(c, pos, pos, FaceDir::FRONT, e);
            self.lemma_all_len(c, pos, pos, FaceDir::BACK, e);
            self.lemma_fluid_all_len(c, pos, pos, e);
            self.lemma_plants_all_len(c, pos, pos, self.chunk_size as int);
            assert(e * e * e <= 513 * 513 * 513) by (nonlinear_arith)
                requires
                    0 <= e <= 513,
            ;
            assert(e * e * e == e * e * e);
            assert((self.chunk_size as int) * (self.chunk_size as int) <= 512 * 512) by (nonlinear_arith)
                requires
                    0 <= self.chunk_size <= 512,
            ;
            lemma_faces_mesh_wf(self.fill_faces(c, pos, pos, FaceDir::TOP));
            lemma_faces_mesh_wf(self.fill_faces(c, pos, pos, FaceDir::BOTTOM));
            lemma_faces_mesh_wf(self.fill_faces(c, pos, pos, FaceDir::LEFT));
            lemma_faces_mesh_wf(self.fill_faces(c, pos, pos, FaceDir::RIGHT));
            lemma_faces_mesh_wf(self.fill_faces(c, pos, pos, FaceDir::FRONT));
            lemma_faces_mesh_wf(self.fill_faces(c, pos, pos, FaceDir::BACK));
            lemma_faces_mesh_wf(self.fluid_all(c, pos, pos, e));
            lemma_plants_mesh_wf(self.plants_all(c, pos, pos, self.chunk_size as int));
        }
        let mut all_mesh: Vec<MeshPart> = Vec::new();
        let ghost orig = opaque_cube_mesh@;
        let mut opaque_cube_mesh = opaque_cube_mesh;
        while opaque_cube_mesh.len() > 0
            invariant
                orig.len() == 6,
                all_mesh@.len() + opaque_cube_mesh@.len() == 6,
                opaque_cube_mesh@ == orig.subrange(all_mesh@.len() as int, 6),
                forall|k: int| 0 <= k < all_mesh@.len() ==> (#[trigger] all_mesh@[k]).0 == orig[k].0
                    && all_mesh@[k].1 == orig[k].1 && all_mesh@[k].2 == Some(orig[k].2)
                    && all_mesh@[k].3 == RenderDataPurpose::TerrainOpaque,
            decreases opaque_cube_mesh@.len(),
        {
            let (v, i, f) = opaque_cube_mesh.remove(0);
            all_mesh.push((v, i, Some(f), RenderDataPurpose::TerrainOpaque));
        }
        all_mesh.push((transparent_floral_mesh.0, transparent_floral_mesh.1, None, RenderDataPurpose::TerrainTransparent));
        all_mesh.push((translucent_fluid_mesh.0, translucent_fluid_mesh.1, None, RenderDataPurpose::TerrainTranslucent));
        all_mesh
    }
}

/// A mesh being aggregated: vertices, indices, and how many faces (four vertices each)
/// it holds.
pub type Aggregate = (Seq<ChunkVertex>, Seq<u32>, int);

/// `acc` with a mesh part appended: its vertices after the aggregate's, its indices moved
/// past the aggregate's faces.
pub open spec fn agg_step(acc: Aggregate, v: Seq<ChunkVertex>, i: Seq<u32>) -> Aggregate {
    (acc.0 + v, acc.1 + i.map_values(|x: u32| (x + 4 * acc.2) as u32), acc.2 + v.len() / 4)
}

/// `acc` with the first `k` parts of `parts` for the purpose `p` appended.
pub open spec fn agg_parts(acc: Aggregate, parts: Seq<MeshPart>, p: RenderDataPurpose, k: int) -> Aggregate
    decreases k,
{
    if k <= 0 {
        acc
    } else {
        let a = agg_parts(acc, parts, p, k - 1);
        if parts[k - 1].3 == p {
            agg_step(a, parts[k - 1].0@, parts[k - 1].1@)
        } else {
            a
        }
    }
}

/// The parts for the purpose `p` of the visible chunks among the first `k`, aggregated.
pub open spec fn agg_chunks(chunks: Seq<Chunk>, p: RenderDataPurpose, k: int) -> Aggregate
    decreases k,
{
    if k <= 0 {
        (Seq::empty(), Seq::empty(), 0)
    } else {
        let a = agg_chunks(chunks, p, k - 1);
        let c = chunks[k - 1];
        if c.visible {
            agg_parts(a, c.mesh@, p, c.mesh@.len() as int)
        } else {
            a
        }
    }
}

/// The vertex count of the first `k` parts.
pub open spec fn parts_verts(parts: Seq<MeshPart>, k: int) -> int
    decreases k,
{
    if k <= 0 { 0 } else { parts_verts(parts, k - 1) + parts[k - 1].0@.len() }
}

/// The vertex count of the first `k` chunks.
pub open spec fn chunks_verts(chunks: Seq<Chunk>, k: int) -> int
    decreases k,
{
    if k <= 0 { 0 } else { chunks_verts(chunks, k - 1) + parts_verts(chunks[k - 1].mesh@, chunks[k - 1].mesh@.len() as int) }
}

/// Every part of every chunk is a well-formed mesh.
pub open spec fn chunk_meshes_wf(chunks: Seq<Chunk>) -> bool {
    forall|c: int, k: int| 0 <= c < chunks.len() && 0 <= k < chunks[c].mesh@.len() ==>
        mesh_wf((#[trigger] chunks[c].mesh@[k]).0@, chunks[c].mesh@[k].1@)
}

/// Every index of `i`, moved past the faces of `acc`, fits in a `u32`.
pub open spec fn part_fits(acc: Aggregate, i: Seq<u32>) -> bool {
    forall|k: int| 0 <= k < i.len() ==> #[trigger] i[k] + 4 * acc.2 <= u32::MAX
}

/// Appending the first `k` parts of `parts` for the purpose `p` to `acc` moves no index
/// past `u32::MAX`.
pub open spec fn parts_fit(acc: Aggregate, parts: Seq<MeshPart>, p: RenderDataPurpose, k: int) -> bool
    decreases k,
{
    if k <= 0 {
        true
    } else {
        &&& parts_fit(acc, parts, p, k - 1)
        &&& (parts[k - 1].3 == p ==> part_fits(agg_parts(acc, parts, p, k - 1), parts[k - 1].1@))
    }
}

/// Aggregating the parts for the purpose `p` of the visible chunks among the first `k`
/// moves no index past `u32::MAX`.
pub open spec fn chunks_fit(chunks: Seq<Chunk>, p: RenderDataPurpose, k: int) -> bool
    decreases k,
{
    if k <= 0 {
        true
    } else {
        &&& chunks_fit(chunks, p, k - 1)
        &&& (chunks[k - 1].visible ==> parts_fit(agg_chunks(chunks, p, k - 1), chunks[k - 1].mesh@, p,
            chunks[k - 1].mesh@.len() as int))
    }
}

/// The aggregation of `chunks` for each of the three terrain purposes moves no index past
/// `u32::MAX`.
pub open spec fn aggregate_fits(chunks: Seq<Chunk>) -> bool {
    &&& chunks_fit(chunks, RenderDataPurpose::TerrainOpaque, chunks.len() as int)
    &&& chunks_fit(chunks, RenderDataPurpose::TerrainTransparent, chunks.len() as int)
    &&& chunks_fit(chunks, RenderDataPurpose::TerrainTranslucent, chunks.len() as int)
}

pub proof fn lemma_parts_fit_prefix(acc: Aggregate, parts: Seq<MeshPart>, p: RenderDataPurpose, j: int, k: int)
    requires
        0 <= j <= k,
        parts_fit(acc, parts, p, k),
    ensures
        parts_fit(acc, parts, p, j),
    decreases k - j,
{
    if j < k {
        lemma_parts_fit_prefix(acc, parts, p, j, k - 1);
    }
}

pub proof fn lemma_chunks_fit_prefix(chunks: Seq<Chunk>, p: RenderDataPurpose, j: int, k: int)
    requires
        0 <= j <= k,
        chunks_fit(chunks, p, k),
    ensures
        chunks_fit(chunks, p, j),
    decreases k - j,
{
    if j < k {
        lemma_chunks_fit_prefix(chunks, p, j, k - 1);
    }
}

pub proof fn lemma_parts_verts_mono(parts: Seq<MeshPart>, a: int, b: int)
    requires
        0 <= a <= b <= parts.len(),
    ensures
        parts_verts(parts, a) <= parts_verts(parts, b),
    decreases b - a,
{
    if a < b {
        lemma_parts_verts_mono(parts, a, b - 1);
    }
}

pub proof fn lemma_chunks_verts_mono(chunks: Seq<Chunk>, a: int, b: int)
    requires
        0 <= a <= b <= chunks.len(),
    ensures
        chunks_verts(chunks, a) <= chunks_verts(chunks, b),
    decreases b - a,
{
    if a < b {
        lemma_chunks_verts_mono(chunks, a, b - 1);
        lemma_parts_verts_mono(chunks[b - 1].mesh@, 0, chunks[b - 1].mesh@.len() as int);
    }
}

proof fn lemma_agg_step_wf(acc: Aggregate, v: Seq<ChunkVertex>, i: Seq<u32>)
    requires
        0 <= acc.2,
        4 * acc.2 <= acc.0.len(),
        mesh_wf(acc.0, acc.1),
        mesh_wf(v, i),
        acc.0.len() + v.len() <= u32::MAX,
    ensures
        0 <= agg_step(acc, v, i).2,
        4 * agg_step(acc, v, i).2 <= agg_step(acc, v, i).0.len(),
        mesh_wf(agg_step(acc, v, i).0, agg_step(acc, v, i).1),
        agg_step(acc, v, i).0.len() == acc.0.len() + v.len(),
{
    let n = agg_step(acc, v, i);
    assert(4 * (v.len() as int / 4) <= v.len()) by (nonlinear_arith);
    assert(0 <= v.len() as int / 4) by (nonlinear_arith);
    let moved = i.map_values(|x: u32| (x + 4 * acc.2) as u32);
    assert forall|k: int| 0 <= k < n.1.len() implies (#[trigger] n.1[k] as int) < n.0.len() by {
        if k < acc.1.len() {
            assert(n.1[k] == acc.1[k]);
        } else {
            let q = k - acc.1.len();
            assert(n.1[k] == moved[q]);
            assert((i[q] as int) < v.len());
        }
    }
}

proof fn lemma_agg_parts_wf(acc: Aggregate, parts: Seq<MeshPart>, p: RenderDataPurpose, k: int)
    requires
        0 <= k <= parts.len(),
        0 <= acc.2,
        4 * acc.2 <= acc.0.len(),
        mesh_wf(acc.0, acc.1),
        forall|j: int| 0 <= j < parts.len() ==> mesh_wf((#[trigger] parts[j]).0@, parts[j].1@),
        acc.0.len() + parts_verts(parts, k) <= u32::MAX,
    ensures
        0 <= agg_parts(acc, parts, p, k).2,
        4 * agg_parts(acc, parts, p, k).2 <= agg_parts(acc, parts, p, k).0.len(),
        mesh_wf(agg_parts(acc, parts, p, k).0, agg_parts(acc, parts, p, k).1),
        agg_parts(acc, parts, p, k).0.len() <= acc.0.len() + parts_verts(parts, k),
        parts_fit(acc, parts, p, k),
    decreases k,
{
    if k > 0 {
        lemma_parts_verts_mono(parts, k - 1, k);
        lemma_agg_parts_wf(acc, parts, p, k - 1);
        if parts[k - 1].3 == p {
            let a = agg_parts(acc, parts, p, k - 1);
            let i = parts[k - 1].1@;
            assert(mesh_wf(parts[k - 1].0@, i));
            assert forall|q: int| 0 <= q < i.len() implies #[trigger] i[q] + 4 * a.2 <= u32::MAX by {
                assert((i[q] as int) < parts[k - 1].0@.len());
            }
            lemma_agg_step_wf(a, parts[k - 1].0@, i);
        }
    }
}

proof fn lemma_agg_chunks_wf(chunks: Seq<Chunk>, p: RenderDataPurpose, k: int)
    requires
        0 <= k <= chunks.len(),
        chunk_meshes_wf(chunks),
        chunks_verts(chunks, k) <= u32::MAX,
    ensures
        0 <= agg_chunks(chunks, p, k).2,
        4 * agg_chunks(chunks, p, k).2 <= agg_chunks(chunks, p, k).0.len(),
        mesh_wf(agg_chunks(chunks, p, k).0, agg_chunks(chunks, p, k).1),
        agg_chunks(chunks, p, k).0.len() <= chunks_verts(chunks, k),
        chunks_fit(chunks, p, k),
    decreases k,
{
    if k > 0 {
        lemma_chunks_verts_mono(chunks, k - 1, k);
        lemma_agg_chunks_wf(chunks, p, k - 1);
        let c = chunks[k - 1];
        lemma_parts_verts_mono(c.mesh@, 0, c.mesh@.len() as int);
        if c.visible {
            assert forall|j: int| 0 <= j < c.mesh@.len() implies mesh_wf((#[trigger] c.mesh@[j]).0@, c.mesh@[j].1@) by {
                assert(mesh_wf(chunks[k - 1].mesh@[j].0@, chunks[k - 1].mesh@[j].1@));
            }
            lemma_agg_parts_wf(agg_chunks(chunks, p, k - 1), c.mesh@, p, c.mesh@.len() as int);
        }
    } else {
        assert(mesh_wf(Seq::<ChunkVertex>::empty(), Seq::<u32>::empty()));
    }
}

/// The aggregated mesh of every render purpose is well formed, as the chunks' meshes are:
/// every index refers to one of its vertices.
pub proof fn lemma_aggregate_wf(chunks: Seq<Chunk>, p: RenderDataPurpose)
    requires
        chunk_meshes_wf(chunks),
        chunks_verts(chunks, chunks.len() as int) <= u32::MAX,
    ensures
        mesh_wf(agg_chunks(chunks, p, chunks.len() as int).0, agg_chunks(chunks, p, chunks.len() as int).1),
{
    lemma_agg_chunks_wf(chunks, p, chunks.len() as int);
}

/// The aggregation reads only the drawn chunks: two lists of chunks, drawn at the same
/// places and with the same meshes there, aggregate alike, whatever the hidden chunks hold.
pub proof fn lemma_aggregate_ignores_hidden(s1: Seq<Chunk>, s2: Seq<Chunk>, p: RenderDataPurpose, k: int)
    requires
        0 <= k <= s1.len(),
        s1.len() == s2.len(),
        forall|i: int| 0 <= i < s1.len() ==> (#[trigger] s1[i]).visible == s2[i].visible
            && (s1[i].visible ==> s1[i].mesh@ == s2[i].mesh@),
    ensures
        agg_chunks(s1, p, k) == agg_chunks(s2, p, k),
    decreases k,
{
    if k > 0 {
        lemma_aggregate_ignores_hidden(s1, s2, p, k - 1);
        assert(s1[k - 1].visible == s2[k - 1].visible);
    }
}

/// Where every chunk's mesh is well formed and the vertices fit in a `u32` count, the
/// aggregation moves no index past `u32::MAX`.
pub proof fn lemma_wf_aggregate_fits(chunks: Seq<Chunk>)
    requires
        chunk_meshes_wf(chunks),
        chunks_verts(chunks, chunks.len() as int) <= u32::MAX,
    ensures
        aggregate_fits(chunks),
{
    lemma_agg_chunks_wf(chunks, RenderDataPurpose::TerrainOpaque, chunks.len() as int);
    lemma_agg_chunks_wf(chunks, RenderDataPurpose::TerrainTransparent, chunks.len() as int);
    lemma_agg_chunks_wf(chunks, RenderDataPurpose::TerrainTranslucent, chunks.len() as int);
}

/// Appends a part to an aggregate, moving its indices past the aggregate's faces.
pub(crate) fn append_part(acc_v: &mut Vec<ChunkVertex>, acc_i: &mut Vec<u32>, faces: &mut u32, v: &Vec<ChunkVertex>, i: &Vec<u32>)
    requires
        4 * *old(faces) <= old(acc_v)@.len(),
        old(acc_v)@.len() + v@.len() <= u32::MAX,
        part_fits((old(acc_v)@, old(acc_i)@, *old(faces) as int), i@),
    ensures
        (final(acc_v)@, final(acc_i)@, *final(faces) as int)
            == agg_step((old(acc_v)@, old(acc_i)@, *old(faces) as int), v@, i@),
        4 * *final(faces) <= final(acc_v)@.len(),
{
    let ghost old_v = acc_v@;
    let ghost old_i = acc_i@;
    let ghost f = *faces as int;
    let ofs = *faces * 4;
    let mut k: usize = 0;
    while k < i.len()
        invariant
            ofs == 4 * f,
            4 * f <= old_v.len(),
            old_v.len() + v@.len() <= u32::MAX,
            forall|q: int| 0 <= q < i@.len() ==> #[trigger] i@[q] + 4 * f <= u32::MAX,
            k <= i@.len(),
            acc_i@ == old_i + i@.subrange(0, k as int).map_values(|x: u32| (x + 4 * f) as u32),
        decreases i@.len() - k,
    {
        assert(i@[k as int] + 4 * f <= u32::MAX);
        acc_i.push(i[k] + ofs);
        proof {
            assert(i@.subrange(0, k + 1).map_values(|x: u32| (x + 4 * f) as u32)
                =~= i@.subrange(0, k as int).map_values(|x: u32| (x + 4 * f) as u32).push((i@[k as int] + 4 * f) as u32));
        }
        k = k + 1;
    }
    let mut j: usize = 0;
    while j < v.len()
        invariant
            j <= v@.len(),
            old_v.len() + v@.len() <= u32::MAX,
            acc_v@ == old_v + v@.subrange(0, j as int),
        decreases v@.len() - j,
    {
        acc_v.push(v[j]);
        proof {
            assert(v@.subrange(0, j + 1) =~= v@.subrange(0, j as int).push(v@[j as int]));
        }
        j = j + 1;
    }
    proof {
        assert(i@.subrange(0, i@.len() as int) =~= i@);
        assert(v@.subrange(0, v@.len() as int) =~= v@);
    }
    *faces = *faces + (v.len() / 4) as u32;
}

/// An aggregated mesh under construction.
pub struct MeshAggregate {
    pub verts: Vec<ChunkVertex>,
    pub inds: Vec<u32>,
    pub faces: u32,
}

impl MeshAggregate {
    pub open spec fn view(&self) -> Aggregate {
        (self.verts@, self.inds@, self.faces as int)
    }

    pub open spec fn ok(&self) -> bool {
        4 * self.faces <= self.verts@.len()
    }
}

/// `r` holds one mesh per render purpose (opaque, transparent, translucent): the parts for
/// that purpose of the visible chunks of `chunks`, aggregated in order.
pub open spec fn aggregates(r: Seq<(Vec<ChunkVertex>, Vec<u32>, RenderDataPurpose)>, chunks: Seq<Chunk>) -> bool {
    &&& r.len() == 3
    &&& r[0].0@ == agg_chunks(chunks, RenderDataPurpose::TerrainOpaque, chunks.len() as int).0
    &&& r[0].1@ == agg_chunks(chunks, RenderDataPurpose::TerrainOpaque, chunks.len() as int).1
    &&& r[0].2 == RenderDataPurpose::TerrainOpaque
    &&& r[1].0@ == agg_chunks(chunks, RenderDataPurpose::TerrainTransparent, chunks.len() as int).0
    &&& r[1].1@ == agg_chunks(chunks, RenderDataPurpose::TerrainTransparent, chunks.len() as int).1
    &&& r[1].2 == RenderDataPurpose::TerrainTransparent
    &&& r[2].0@ == agg_chunks(chunks, RenderDataPurpose::TerrainTranslucent, chunks.len() as int).0
    &&& r[2].1@ == agg_chunks(chunks, RenderDataPurpose::TerrainTranslucent, chunks.len() as int).1
    &&& r[2].2 == RenderDataPurpose::TerrainTranslucent
}

impl<'b> ChunkGeneratorMF<'b> {
    /// One mesh per render purpose (opaque, transparent, translucent) of the visible
    /// chunks: each chunk's parts for the purpose, in order, with their indices moved past
    /// the faces aggregated before them.
    pub fn aggregate_mesh(&self, central_pos: Length3D, chunks: &Vec<Chunk>)
        -> (r: Vec<(Vec<ChunkVertex>, Vec<u32>, RenderDataPurpose)>)
        requires
            aggregate_fits(chunks@),
            chunks_verts(chunks@, chunks@.len() as int) <= u32::MAX,
        ensures
            aggregates(r@, chunks@),
    {
        let ghost cs = chunks@;
        let mut opaque = MeshAggregate { verts: Vec::new(), inds: Vec::new(), faces: 0 };
        let mut transparent = MeshAggregate { verts: Vec::new(), inds: Vec::new(), faces: 0 };
        let mut translucent = MeshAggregate { verts: Vec::new(), inds: Vec::new(), faces: 0 };
        let mut c: usize = 0;
        while c < chunks.len()
            invariant
                cs == chunks@,
                aggregate_fits(cs),
                chunks_verts(cs, cs.len() as int) <= u32::MAX,
                c <= cs.len(),
                opaque.view() == agg_chunks(cs, RenderDataPurpose::TerrainOpaque, c as int),
                transparent.view() == agg_chunks(cs, RenderDataPurpose::TerrainTransparent, c as int),
                translucent.view() == agg_chunks(cs, RenderDataPurpose::TerrainTranslucent, c as int),
                opaque.ok() && transparent.ok() && translucent.ok(),
                opaque.verts@.len() + transparent.verts@.len() + translucent.verts@.len() <= chunks_verts(cs, c as int),
            decreases cs.len() - c,
        {
            let chunk = &chunks[c];
            proof { lemma_chunks_verts_mono(cs, c + 1, cs.len() as int); }
            if chunk.visible() {
                let ghost mesh = chunk.mesh@;
                let ghost base = chunks_verts(cs, c as int);
                let mut k: usize = 0;
                while k < chunk.mesh.len()
                    invariant
                        cs == chunks@,
                        aggregate_fits(cs),
                        chunks_verts(cs, cs.len() as int) <= u32::MAX,
                        c < cs.len(),
                        chunk == cs[c as int],
                        cs[c as int].visible,
                        mesh == chunk.mesh@,
                        base == chunks_verts(cs, c as int),
                        chunks_verts(cs, c + 1) <= u32::MAX,
                        k <= mesh.len(),
                        opaque.view() == agg_parts(agg_chunks(cs, RenderDataPurpose::TerrainOpaque, c as int), mesh, RenderDataPurpose::TerrainOpaque, k as int),
                        transparent.view() == agg_parts(agg_chunks(cs, RenderDataPurpose::TerrainTransparent, c as int), mesh, RenderDataPurpose::TerrainTransparent, k as int),
                        translucent.view() == agg_parts(agg_chunks(cs, RenderDataPurpose::TerrainTranslucent, c as int), mesh, RenderDataPurpose::TerrainTranslucent, k as int),
                        opaque.ok() && transparent.ok() && translucent.ok(),
                        opaque.verts@.len() + transparent.verts@.len() + translucent.verts@.len() <= base + parts_verts(mesh, k as int),
                    decreases mesh.len() - k,
                {
                    let part = &chunk.mesh[k];
                    proof {
                        let n = cs.len() as int;
                        let po = RenderDataPurpose::TerrainOpaque;
                        let pt = RenderDataPurpose::TerrainTransparent;
                        let pl = RenderDataPurpose::TerrainTranslucent;
                        lemma_chunks_fit_prefix(cs, po, c + 1, n);
                        lemma_chunks_fit_prefix(cs, pt, c + 1, n);
                        lemma_chunks_fit_prefix(cs, pl, c + 1, n);
                        lemma_parts_fit_prefix(agg_chunks(cs, po, c as int), mesh, po, k + 1, mesh.len() as int);
                        lemma_parts_fit_prefix(agg_chunks(cs, pt, c as int), mesh, pt, k + 1, mesh.len() as int);
                        lemma_parts_fit_prefix(agg_chunks(cs, pl, c as int), mesh, pl, k + 1, mesh.len() as int);
                        lemma_parts_verts_mono(mesh, k + 1, mesh.len() as int);
                        assert(chunks_verts(cs, c + 1) == base + parts_verts(mesh, mesh.len() as int));
                    }
                    match part.3 {
                        RenderDataPurpose::TerrainOpaque => {
                            append_part(&mut opaque.verts, &mut opaque.inds, &mut opaque.faces, &part.0, &part.1);
                        },
                        RenderDataPurpose::TerrainTransparent => {
                            append_part(&mut transparent.verts, &mut transparent.inds, &mut transparent.faces, &part.0, &part.1);
                        },
                        RenderDataPurpose::TerrainTranslucent => {
                            append_part(&mut translucent.verts, &mut translucent.inds, &mut translucent.faces, &part.0, &part.1);
                        },
                        _ => {},
                    }
                    k = k + 1;
                }
            }
            proof {
                assert(chunks_verts(cs, c + 1) == chunks_verts(cs, c as int)
                    + parts_verts(cs[c as int].mesh@, cs[c as int].mesh@.len() as int));
                lemma_parts_verts_mono(cs[c as int].mesh@, 0, cs[c as int].mesh@.len() as int);
            }
            c = c + 1;
        }
        let mut r: Vec<(Vec<ChunkVertex>, Vec<u32>, RenderDataPurpose)> = Vec::new();
        r.push((opaque.verts, opaque.inds, RenderDataPurpose::TerrainOpaque));
        r.push((transparent.verts, transparent.inds, RenderDataPurpose::TerrainTransparent));
        r.push((translucent.verts, translucent.inds, RenderDataPurpose::TerrainTranslucent));
        r
    }
}

} // verus!
