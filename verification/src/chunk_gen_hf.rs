//! The voxel chunk generator of the farther level of detail: a chunk's voxels, its mesh of
//! the faces its own voxels leave open, and the aggregation that adds the faces on the
//! chunks' borders, culled against the voxels of the neighbouring chunks.
use vstd::prelude::*;
use crate::block::{
    BlockCullType, FaceDir, MeshType, RenderDataPurpose, TextureMapper, TransparencyType, spec_block_obscures,
    spec_drawn_block, spec_fluid_obscures,
};
use crate::chunk_gen_mf::{Aggregate, MeshAggregate, agg_parts, agg_step, append_part, lemma_parts_fit_prefix, part_fits, parts_fit};
use crate::chunk_mesh::{ChunkAdjacency, Length3D, MeshPart, Position, adjacent, length_in_range};
use crate::terrain_gen::TerrainColumns;
use crate::mesh_surface::dir_offset;
use crate::mesh_util::{
    ChunkGeneratorMF, ChunkVertex, MAX_CHUNK_SIZE, MAX_COORD, chunk_indexable, culled, face_indices, face_vertices, in_chunk,
    lemma_voxel_index_bounds, loc_in_range, voxel_index, xcross_indices, xcross_vertices,
};

verus! {

/// A face (with `dir`) or a plant cross (without) of a block at `loc`, drawn with the
/// texture id `txtr`; a fluid face has its top lowered.
#[derive(Copy, Clone, Debug)]
pub struct MeshItem {
    pub loc: (i32, i32, i32),
    pub dir: Option<FaceDir>,
    pub txtr: u32,
    pub fluid: bool,
}

/// `acc` with the item `it` appended: its vertices after the aggregate's, its indices
/// moved past the aggregate's faces; a cross counts as two faces.
pub open spec fn item_step(acc: Aggregate, it: MeshItem) -> Aggregate {
    match it.dir {
        Some(d) => (acc.0 + face_vertices(it.loc, d, it.txtr, it.fluid), acc.1 + face_indices(d, 4 * acc.2), acc.2 + 1),
        None => (acc.0 + xcross_vertices(it.loc, it.txtr), acc.1 + xcross_indices(4 * acc.2), acc.2 + 2),
    }
}

/// `acc` with the items `s` appended in order.
pub open spec fn items_from(acc: Aggregate, s: Seq<MeshItem>) -> Aggregate
    decreases s.len(),
{
    if s.len() == 0 {
        acc
    } else {
        item_step(items_from(acc, s.drop_last()), s.last())
    }
}

/// The empty mesh.
pub open spec fn empty_agg() -> Aggregate {
    (Seq::empty(), Seq::empty(), 0)
}

pub proof fn lemma_items_from_append(acc: Aggregate, s: Seq<MeshItem>, t: Seq<MeshItem>)
    ensures
        items_from(acc, s + t) == items_from(items_from(acc, s), t),
    decreases t.len(),
{
    if t.len() == 0 {
        assert(s + t =~= s);
    } else {
        lemma_items_from_append(acc, s, t.drop_last());
        assert((s + t).drop_last() =~= s + t.drop_last());
        assert((s + t).last() == t.last());
    }
}

/// The world position handed to the face builder for the voxel (x, y, z) of the chunk at
/// `pos`: its z is negated.
pub open spec fn hf_loc(pos: (i32, i32, i32), x: int, y: int, z: int) -> (i32, i32, i32) {
    ((pos.0 + x) as i32, (pos.1 + y) as i32, (-(pos.2 + z)) as i32)
}

/// The render purpose of the blocks of a transparency.
pub open spec fn purpose_of(t: TransparencyType) -> RenderDataPurpose {
    match t {
        TransparencyType::Opaque => RenderDataPurpose::TerrainOpaque,
        TransparencyType::Transparent => RenderDataPurpose::TerrainTransparent,
        TransparencyType::Translucent => RenderDataPurpose::TerrainTranslucent,
    }
}

/// Whether `v` hides the face next to it of a solid block, or, for `fluid`, of a fluid.
pub open spec fn hides(v: BlockCullType, fluid: bool) -> bool {
    if fluid { spec_fluid_obscures(v) } else { spec_block_obscures(v) }
}

impl<'b> ChunkGeneratorMF<'b> {
    /// What the voxel meshing needs: chunk indices and face offsets that fit in a `u32`, a
    /// voxel array covering the chunk whose drawn blocks are in the block table, and a
    /// corner within the coordinate range.
    pub open spec fn hf_input_ok(&self, v: Seq<BlockCullType>, pos: (i32, i32, i32)) -> bool {
        let n = self.chunk_size as int;
        &&& self.chunk_size <= MAX_CHUNK_SIZE
        &&& self.txtr_id_mapper.wf()
        &&& v.len() >= n * n * n
        &&& forall|x: int, y: int, z: int| in_chunk(n, x, y, z) ==>
            (#[trigger] spec_drawn_block(v[voxel_index(n, x, y, z)]) matches Some(b) ==> (b.0 as int) < self.block_ind@.len())
        &&& -MAX_COORD <= pos.0 <= MAX_COORD
        &&& -MAX_COORD <= pos.1 <= MAX_COORD
        &&& -MAX_COORD <= pos.2 <= MAX_COORD
    }

    /// The face of the voxel (x, y, z) looking to `d`, if its neighbour on that side lies in
    /// the chunk and does not hide it.
    pub open spec fn inner_face(&self, v: Seq<BlockCullType>, pos: (i32, i32, i32), x: int, y: int, z: int,
        d: FaceDir, m: TextureMapper<'b>, fluid: bool) -> Seq<MeshItem>
    {
        let n = self.chunk_size as int;
        let o = dir_offset(d);
        if in_chunk(n, x + o.0, y + o.1, z + o.2) && !hides(v[voxel_index(n, x + o.0, y + o.1, z + o.2)], fluid) {
            seq![MeshItem { loc: hf_loc(pos, x, y, z), dir: Some(d), txtr: self.face_txtr(m, d), fluid }]
        } else {
            Seq::empty()
        }
    }

    /// The open faces of a cube (or fluid) voxel, in the order FRONT, RIGHT, BACK, LEFT,
    /// TOP, BOTTOM.
    pub open spec fn inner_faces(&self, v: Seq<BlockCullType>, pos: (i32, i32, i32), x: int, y: int, z: int,
        m: TextureMapper<'b>, fluid: bool) -> Seq<MeshItem>
    {
        self.inner_face(v, pos, x, y, z, FaceDir::FRONT, m, fluid)
            + self.inner_face(v, pos, x, y, z, FaceDir::RIGHT, m, fluid)
            + self.inner_face(v, pos, x, y, z, FaceDir::BACK, m, fluid)
            + self.inner_face(v, pos, x, y, z, FaceDir::LEFT, m, fluid)
            + self.inner_face(v, pos, x, y, z, FaceDir::TOP, m, fluid)
            + self.inner_face(v, pos, x, y, z, FaceDir::BOTTOM, m, fluid)
    }

    /// The items of the voxel (x, y, z) for the blocks of transparency `t`: the open faces
    /// of a cube or a fluid, the cross of a plant.
    pub open spec fn cell_items(&self, v: Seq<BlockCullType>, pos: (i32, i32, i32), x: int, y: int, z: int,
        t: TransparencyType) -> Seq<MeshItem>
    {
        let n = self.chunk_size as int;
        match spec_drawn_block(v[voxel_index(n, x, y, z)]) {
            Some(b) => {
                let data = self.block_ind@[b.0 as int];
                if data.transparency != t {
                    Seq::empty()
                } else {
                    match data.mesh {
                        MeshType::Cube => self.inner_faces(v, pos, x, y, z, data.texture_id, false),
                        MeshType::Fluid => self.inner_faces(v, pos, x, y, z, data.texture_id, true),
                        MeshType::XCross => seq![MeshItem {
                            loc: hf_loc(pos, x, y, z),
                            dir: None,
                            txtr: self.face_txtr(data.texture_id, FaceDir::TOP),
                            fluid: false,
                        }],
                        MeshType::Empty => Seq::empty(),
                    }
                }
            },
            None => Seq::empty(),
        }
    }

    /// The items of the voxels (x, y, 0) to (x, y, z - 1).
    pub open spec fn hf_col(&self, v: Seq<BlockCullType>, pos: (i32, i32, i32), x: int, y: int, z: int,
        t: TransparencyType) -> Seq<MeshItem>
        decreases z,
    {
        if z <= 0 {
            Seq::empty()
        } else {
            self.hf_col(v, pos, x, y, z - 1, t) + self.cell_items(v, pos, x, y, z - 1, t)
        }
    }

    /// The items of the columns (x, 0) to (x, y - 1).
    pub open spec fn hf_row(&self, v: Seq<BlockCullType>, pos: (i32, i32, i32), x: int, y: int,
        t: TransparencyType) -> Seq<MeshItem>
        decreases y,
    {
        if y <= 0 {
            Seq::empty()
        } else {
            self.hf_row(v, pos, x, y - 1, t) + self.hf_col(v, pos, x, y - 1, self.chunk_size as int, t)
        }
    }

    /// The items of the layers 0 to x - 1, in the order x, then y, then z.
    pub open spec fn hf_all(&self, v: Seq<BlockCullType>, pos: (i32, i32, i32), x: int,
        t: TransparencyType) -> Seq<MeshItem>
        decreases x,
    {
        if x <= 0 {
            Seq::empty()
        } else {
            self.hf_all(v, pos, x - 1, t) + self.hf_row(v, pos, x - 1, self.chunk_size as int, t)
        }
    }

    pub open spec fn hf_before(&self, v: Seq<BlockCullType>, pos: (i32, i32, i32), x: int, y: int, z: int,
        t: TransparencyType) -> Seq<MeshItem>
    {
        self.hf_all(v, pos, x, t) + self.hf_row(v, pos, x, y, t) + self.hf_col(v, pos, x, y, z, t)
    }
}

/// Appends the face of the block at `loc` looking to `d`.
fn add_face<'b>(g: &ChunkGeneratorMF<'b>, acc: &mut MeshAggregate, loc: (i32, i32, i32), d: FaceDir,
    m: TextureMapper<'b>, fluid: bool)
    requires
        g.txtr_id_mapper.wf(),
        loc_in_range(loc),
        4 * old(acc).faces + 3 <= u32::MAX,
    ensures
        final(acc).view() == item_step(old(acc).view(), MeshItem { loc, dir: Some(d), txtr: g.face_txtr(m, d), fluid }),
{
    let (mut v, mut i) = g.gen_face(loc, acc.faces * 4, d, m, fluid);
    acc.verts.append(&mut v);
    acc.inds.append(&mut i);
    acc.faces = acc.faces + 1;
}

/// Appends the cross of the plant at `loc`.
fn add_cross<'b>(g: &ChunkGeneratorMF<'b>, acc: &mut MeshAggregate, loc: (i32, i32, i32), m: TextureMapper<'b>)
    requires
        g.txtr_id_mapper.wf(),
        loc_in_range(loc),
        4 * old(acc).faces + 7 <= u32::MAX,
    ensures
        final(acc).view() == item_step(old(acc).view(),
            MeshItem { loc, dir: None, txtr: g.face_txtr(m, FaceDir::TOP), fluid: false }),
{
    let (mut v, mut i) = g.gen_xcross(loc, acc.faces * 4, m);
    acc.verts.append(&mut v);
    acc.inds.append(&mut i);
    acc.faces = acc.faces + 2;
}

/// The step (dx, dy, dz) to the neighbour on the side `d`.
fn side_step(d: FaceDir) -> (r: (i32, i32, i32))
    ensures
        r.0 as int == dir_offset(d).0,
        r.1 as int == dir_offset(d).1,
        r.2 as int == dir_offset(d).2,
{
    match d {
        FaceDir::TOP => (0, 1, 0),
        FaceDir::BOTTOM => (0, -1, 0),
        FaceDir::LEFT => (-1, 0, 0),
        FaceDir::RIGHT => (1, 0, 0),
        FaceDir::FRONT => (0, 0, 1),
        FaceDir::BACK => (0, 0, -1),
    }
}

proof fn lemma_one_item(acc: Aggregate, it: MeshItem)
    ensures
        items_from(acc, seq![it]) == item_step(acc, it),
{
    assert(seq![it].drop_last() =~= Seq::<MeshItem>::empty());
    assert(items_from(acc, Seq::<MeshItem>::empty()) == acc);
}

/// In a chunk of at most `MAX_CHUNK_SIZE` blocks a side every voxel index is below
/// `MAX_CHUNK_SIZE` cubed.
pub proof fn lemma_small_index(n: int, x: int, y: int, z: int)
    requires
        n <= MAX_CHUNK_SIZE,
        in_chunk(n, x, y, z),
    ensures
        0 <= voxel_index(n, x, y, z) < n * n * n,
        n * n * n <= 512 * 512 * 512,
{
    lemma_voxel_index_bounds(n, x, y, z);
    assert(n * n * n <= 512 * 512 * 512) by (nonlinear_arith)
        requires
            0 <= n <= 512,
    ;
}

impl<'b> ChunkGeneratorMF<'b> {
    /// Appends the face of the voxel (x, y, z) looking to `d` if its neighbour on that side
    /// lies in the chunk and does not hide it.
    fn inner_face_into(&self, acc: &mut MeshAggregate, voxels: &Vec<BlockCullType>, pos: (i32, i32, i32),
        x: u32, y: u32, z: u32, d: FaceDir, m: TextureMapper<'b>, fluid: bool)
        requires
            self.hf_input_ok(voxels@, pos),
            in_chunk(self.chunk_size as int, x as int, y as int, z as int),
            4 * old(acc).faces + 7 <= u32::MAX,
        ensures
            final(acc).view() == items_from(old(acc).view(), self.inner_face(voxels@, pos, x as int, y as int, z as int, d, m, fluid)),
            final(acc).faces <= old(acc).faces + 1,
    {
        let ghost n = self.chunk_size as int;
        let (dx, dy, dz) = side_step(d);
        let a = x as i32 + dx;
        let b = y as i32 + dy;
        let c = z as i32 + dz;
        if self.check_coord_within_chunk(a, b, c) {
            proof { lemma_small_index(n, a as int, b as int, c as int); }
            let nb = voxels[self.access(a as u32, b as u32, c as u32)];
            let hidden = if fluid { nb.check_fluid_obscured() } else { nb.check_block_obscured() };
            if !hidden {
                let loc = (pos.0 + x as i32, pos.1 + y as i32, -pos.2 - z as i32);
                let ghost it = MeshItem { loc, dir: Some(d), txtr: self.face_txtr(m, d), fluid };
                proof { lemma_one_item(acc.view(), it); }
                add_face(self, acc, loc, d, m, fluid);
                assert(loc == hf_loc(pos, x as int, y as int, z as int));
            } else {
                assert(self.inner_face(voxels@, pos, x as int, y as int, z as int, d, m, fluid) == Seq::<MeshItem>::empty());
            }
        } else {
            assert(self.inner_face(voxels@, pos, x as int, y as int, z as int, d, m, fluid) == Seq::<MeshItem>::empty());
        }
    }

    /// Appends the open faces of the cube (or fluid) voxel (x, y, z).
    fn inner_faces_into(&self, acc: &mut MeshAggregate, voxels: &Vec<BlockCullType>, pos: (i32, i32, i32),
        x: u32, y: u32, z: u32, m: TextureMapper<'b>, fluid: bool)
        requires
            self.hf_input_ok(voxels@, pos),
            in_chunk(self.chunk_size as int, x as int, y as int, z as int),
            4 * old(acc).faces + 27 <= u32::MAX,
        ensures
            final(acc).view() == items_from(old(acc).view(), self.inner_faces(voxels@, pos, x as int, y as int, z as int, m, fluid)),
            final(acc).faces <= old(acc).faces + 6,
    {
        let ghost (xi, yi, zi) = (x as int, y as int, z as int);
        let ghost v = voxels@;
        let ghost a0 = acc.view();
        let ghost f1 = self.inner_face(v, pos, xi, yi, zi, FaceDir::FRONT, m, fluid);
        let ghost f2 = self.inner_face(v, pos, xi, yi, zi, FaceDir::RIGHT, m, fluid);
        let ghost f3 = self.inner_face(v, pos, xi, yi, zi, FaceDir::BACK, m, fluid);
        let ghost f4 = self.inner_face(v, pos, xi, yi, zi, FaceDir::LEFT, m, fluid);
        let ghost f5 = self.inner_face(v, pos, xi, yi, zi, FaceDir::TOP, m, fluid);
        let ghost f6 = self.inner_face(v, pos, xi, yi, zi, FaceDir::BOTTOM, m, fluid);
        self.inner_face_into(acc, voxels, pos, x, y, z, FaceDir::FRONT, m, fluid);
        self.inner_face_into(acc, voxels, pos, x, y, z, FaceDir::RIGHT, m, fluid);
        proof { lemma_items_from_append(a0, f1, f2); }
        self.inner_face_into(acc, voxels, pos, x, y, z, FaceDir::BACK, m, fluid);
        proof { lemma_items_from_append(a0, f1 + f2, f3); }
        self.inner_face_into(acc, voxels, pos, x, y, z, FaceDir::LEFT, m, fluid);
        proof { lemma_items_from_append(a0, f1 + f2 + f3, f4); }
        self.inner_face_into(acc, voxels, pos, x, y, z, FaceDir::TOP, m, fluid);
        proof { lemma_items_from_append(a0, f1 + f2 + f3 + f4, f5); }
        self.inner_face_into(acc, voxels, pos, x, y, z, FaceDir::BOTTOM, m, fluid);
        proof { lemma_items_from_append(a0, f1 + f2 + f3 + f4 + f5, f6); }
    }

    /// Appends the items of the voxel (x, y, z) to the mesh of its block's transparency.
    fn cell_into(&self, opaque: &mut MeshAggregate, transparent: &mut MeshAggregate, translucent: &mut MeshAggregate,
        voxels: &Vec<BlockCullType>, pos: (i32, i32, i32), x: u32, y: u32, z: u32)
        requires
            self.hf_input_ok(voxels@, pos),
            in_chunk(self.chunk_size as int, x as int, y as int, z as int),
            4 * old(opaque).faces + 27 <= u32::MAX,
            4 * old(transparent).faces + 27 <= u32::MAX,
            4 * old(translucent).faces + 27 <= u32::MAX,
        ensures
            final(opaque).view() == items_from(old(opaque).view(),
                self.cell_items(voxels@, pos, x as int, y as int, z as int, TransparencyType::Opaque)),
            final(transparent).view() == items_from(old(transparent).view(),
                self.cell_items(voxels@, pos, x as int, y as int, z as int, TransparencyType::Transparent)),
            final(translucent).view() == items_from(old(translucent).view(),
                self.cell_items(voxels@, pos, x as int, y as int, z as int, TransparencyType::Translucent)),
            final(opaque).faces <= old(opaque).faces + 6,
            final(transparent).faces <= old(transparent).faces + 6,
            final(translucent).faces <= old(translucent).faces + 6,
    {
        let ghost n = self.chunk_size as int;
        proof { lemma_small_index(n, x as int, y as int, z as int); }
        let i = self.access(x, y, z);
        if let Some(b) = voxels[i].drawn_block() {
            let data = self.block_ind(b.0 as usize);
            let acc = match data.transparency {
                TransparencyType::Opaque => opaque,
                TransparencyType::Transparent => transparent,
                TransparencyType::Translucent => translucent,
            };
            match data.mesh {
                MeshType::Cube => self.inner_faces_into(acc, voxels, pos, x, y, z, data.texture_id, false),
                MeshType::Fluid => self.inner_faces_into(acc, voxels, pos, x, y, z, data.texture_id, true),
                MeshType::XCross => {
                    let loc = (pos.0 + x as i32, pos.1 + y as i32, -pos.2 - z as i32);
                    let ghost it = MeshItem { loc, dir: None, txtr: self.face_txtr(data.texture_id, FaceDir::TOP), fluid: false };
                    proof { lemma_one_item(acc.view(), it); }
                    add_cross(self, acc, loc, data.texture_id);
                    assert(loc == hf_loc(pos, x as int, y as int, z as int));
                },
                MeshType::Empty => {},
            }
        }
    }
}

impl<'b> ChunkGeneratorMF<'b> {
    proof fn lemma_hf_next_cell(&self, v: Seq<BlockCullType>, pos: (i32, i32, i32), x: int, y: int, z: int)
        requires
            0 <= z,
        ensures
            forall|t: TransparencyType| items_from(empty_agg(), #[trigger] self.hf_before(v, pos, x, y, z + 1, t))
                == items_from(items_from(empty_agg(), self.hf_before(v, pos, x, y, z, t)), self.cell_items(v, pos, x, y, z, t)),
    {
        assert forall|t: TransparencyType| items_from(empty_agg(), #[trigger] self.hf_before(v, pos, x, y, z + 1, t))
            == items_from(items_from(empty_agg(), self.hf_before(v, pos, x, y, z, t)), self.cell_items(v, pos, x, y, z, t)) by {
            assert(self.hf_col(v, pos, x, y, z + 1, t) == self.hf_col(v, pos, x, y, z, t) + self.cell_items(v, pos, x, y, z, t));
            assert(self.hf_before(v, pos, x, y, z + 1, t) =~= self.hf_before(v, pos, x, y, z, t) + self.cell_items(v, pos, x, y, z, t));
            lemma_items_from_append(empty_agg(), self.hf_before(v, pos, x, y, z, t), self.cell_items(v, pos, x, y, z, t));
        }
    }

    proof fn lemma_hf_next_col(&self, v: Seq<BlockCullType>, pos: (i32, i32, i32), x: int, y: int)
        requires
            0 <= y,
        ensures
            forall|t: TransparencyType| self.hf_all(v, pos, x, t) + #[trigger] self.hf_row(v, pos, x, y + 1, t)
                == self.hf_before(v, pos, x, y, self.chunk_size as int, t),
    {
        assert forall|t: TransparencyType| self.hf_all(v, pos, x, t) + #[trigger] self.hf_row(v, pos, x, y + 1, t)
            == self.hf_before(v, pos, x, y, self.chunk_size as int, t) by {
            assert(self.hf_row(v, pos, x, y + 1, t) == self.hf_row(v, pos, x, y, t) + self.hf_col(v, pos, x, y, self.chunk_size as int, t));
            assert(self.hf_all(v, pos, x, t) + self.hf_row(v, pos, x, y + 1, t)
                =~= self.hf_before(v, pos, x, y, self.chunk_size as int, t));
        }
    }

    proof fn lemma_hf_next_row(&self, v: Seq<BlockCullType>, pos: (i32, i32, i32), x: int)
        requires
            0 <= x,
        ensures
            forall|t: TransparencyType| #[trigger] self.hf_all(v, pos, x + 1, t)
                == self.hf_all(v, pos, x, t) + self.hf_row(v, pos, x, self.chunk_size as int, t),
            forall|t: TransparencyType| self.hf_all(v, pos, x, t) + #[trigger] self.hf_row(v, pos, x, 0, t)
                == self.hf_all(v, pos, x, t),
            forall|t: TransparencyType| #[trigger] self.hf_before(v, pos, x, 0, 0, t) == self.hf_all(v, pos, x, t),
    {
        assert forall|t: TransparencyType| #[trigger] self.hf_before(v, pos, x, 0, 0, t) == self.hf_all(v, pos, x, t) by {
            assert(self.hf_before(v, pos, x, 0, 0, t) =~= self.hf_all(v, pos, x, t));
        }
        assert forall|t: TransparencyType| self.hf_all(v, pos, x, t) + #[trigger] self.hf_row(v, pos, x, 0, t)
            == self.hf_all(v, pos, x, t) by {
            assert(self.hf_all(v, pos, x, t) + self.hf_row(v, pos, x, 0, t) =~= self.hf_all(v, pos, x, t));
        }
    }
}

impl<'b> ChunkGeneratorMF<'b> {
    /// The mesh of a chunk of voxels with its corner at `pos`: one part per render purpose
    /// (opaque, transparent, translucent), each holding, voxel after voxel (by x, then y,
    /// then z), the faces of its cubes and fluids whose neighbour inside the chunk does not
    /// hide them, and the crosses of its plants. Faces on the chunk's border are left to
    /// the aggregation.
    #[verifier::loop_isolation(false)]
    #[verifier::rlimit(60)]
    pub fn generate_mesh_hf(&self, pos: (i32, i32, i32), voxels: &Vec<BlockCullType>) -> (r: Vec<MeshPart>)
        requires
            self.hf_input_ok(voxels@, pos),
        ensures
            r@.len() == 3,
            r@[0].0@ == items_from(empty_agg(), self.hf_all(voxels@, pos, self.chunk_size as int, TransparencyType::Opaque)).0,
            r@[0].1@ == items_from(empty_agg(), self.hf_all(voxels@, pos, self.chunk_size as int, TransparencyType::Opaque)).1,
            r@[0].2 is None && r@[0].3 == RenderDataPurpose::TerrainOpaque,
            r@[1].0@ == items_from(empty_agg(), self.hf_all(voxels@, pos, self.chunk_size as int, TransparencyType::Transparent)).0,
            r@[1].1@ == items_from(empty_agg(), self.hf_all(voxels@, pos, self.chunk_size as int, TransparencyType::Transparent)).1,
            r@[1].2 is None && r@[1].3 == RenderDataPurpose::TerrainTransparent,
            r@[2].0@ == items_from(empty_agg(), self.hf_all(voxels@, pos, self.chunk_size as int, TransparencyType::Translucent)).0,
            r@[2].1@ == items_from(empty_agg(), self.hf_all(voxels@, pos, self.chunk_size as int, TransparencyType::Translucent)).1,
            r@[2].2 is None && r@[2].3 == RenderDataPurpose::TerrainTranslucent,
    {
        let ghost v = voxels@;
        let ghost n = self.chunk_size as int;
        let ghost to = TransparencyType::Opaque;
        let ghost tt = TransparencyType::Transparent;
        let ghost tl = TransparencyType::Translucent;
        let mut opaque = MeshAggregate { verts: Vec::new(), inds: Vec::new(), faces: 0 };
        let mut transparent = MeshAggregate { verts: Vec::new(), inds: Vec::new(), faces: 0 };
        let mut translucent = MeshAggregate { verts: Vec::new(), inds: Vec::new(), faces: 0 };
        let size = self.chunk_size;
        let mut x: u32 = 0;
        while x < size
            invariant
                x <= size,
                n == size,
                v == voxels@,
                opaque.view() == items_from(empty_agg(), self.hf_all(v, pos, x as int, to)),
                transparent.view() == items_from(empty_agg(), self.hf_all(v, pos, x as int, tt)),
                translucent.view() == items_from(empty_agg(), self.hf_all(v, pos, x as int, tl)),
                opaque.faces <= 6 * (x * n * n),
                transparent.faces <= 6 * (x * n * n),
                translucent.faces <= 6 * (x * n * n),
            decreases size - x,
        {
            let mut y: u32 = 0;
            while y < size
                invariant
                    x < size,
                    y <= size,
                    opaque.view() == items_from(empty_agg(), self.hf_all(v, pos, x as int, to) + self.hf_row(v, pos, x as int, y as int, to)),
                    transparent.view() == items_from(empty_agg(), self.hf_all(v, pos, x as int, tt) + self.hf_row(v, pos, x as int, y as int, tt)),
                    translucent.view() == items_from(empty_agg(), self.hf_all(v, pos, x as int, tl) + self.hf_row(v, pos, x as int, y as int, tl)),
                    opaque.faces <= 6 * (x * n * n + y * n),
                    transparent.faces <= 6 * (x * n * n + y * n),
                    translucent.faces <= 6 * (x * n * n + y * n),
                decreases size - y,
            {
                let mut z: u32 = 0;
                while z < size
                    invariant
                        x < size,
                        y < size,
                        z <= size,
                        opaque.view() == items_from(empty_agg(), self.hf_before(v, pos, x as int, y as int, z as int, to)),
                        transparent.view() == items_from(empty_agg(), self.hf_before(v, pos, x as int, y as int, z as int, tt)),
                        translucent.view() == items_from(empty_agg(), self.hf_before(v, pos, x as int, y as int, z as int, tl)),
                        opaque.faces <= 6 * (x * n * n + y * n + z),
                        transparent.faces <= 6 * (x * n * n + y * n + z),
                        translucent.faces <= 6 * (x * n * n + y * n + z),
                    decreases size - z,
                {
                    proof {
                        lemma_small_index(n, y as int, x as int, z as int);
                    }
                    self.cell_into(&mut opaque, &mut transparent, &mut translucent, voxels, pos, x, y, z);
                    proof { self.lemma_hf_next_cell(v, pos, x as int, y as int, z as int); }
                    z = z + 1;
                }
                proof {
                    self.lemma_hf_next_col(v, pos, x as int, y as int);
                    assert(x * n * n + y * n + n == x * n * n + (y + 1) * n) by (nonlinear_arith);
                }
                y = y + 1;
            }
            proof {
                self.lemma_hf_next_row(v, pos, x as int);
                assert(x * n * n + n * n == (x + 1) * n * n) by (nonlinear_arith);
            }
            x = x + 1;
        }
        let mut r: Vec<MeshPart> = Vec::new();
        r.push((opaque.verts, opaque.inds, None, RenderDataPurpose::TerrainOpaque));
        r.push((transparent.verts, transparent.inds, None, RenderDataPurpose::TerrainTransparent));
        r.push((translucent.verts, translucent.inds, None, RenderDataPurpose::TerrainTranslucent));
        r
    }
}

/// The voxels of the chunk with its corner at `pos`, before culling: the voxel at the index
/// `i` is the block at `pos` moved by (i / n % n, i / n / n, i % n), as laid out by
/// `voxel_index`.
pub open spec fn raw_voxels(cols: TerrainColumns, pos: (i32, i32, i32), n: int) -> Seq<BlockCullType> {
    Seq::new((n * n * n) as nat, |i: int| cols.block_at(pos.0 + (i / n) % n, pos.1 + (i / n) / n, pos.2 + i % n))
}

pub proof fn lemma_raw_voxel(cols: TerrainColumns, pos: (i32, i32, i32), n: int, x: int, y: int, z: int)
    requires
        in_chunk(n, x, y, z),
    ensures
        0 <= voxel_index(n, x, y, z) < n * n * n,
        raw_voxels(cols, pos, n)[voxel_index(n, x, y, z)] == cols.block_at(pos.0 + x, pos.1 + y, pos.2 + z),
{
    lemma_voxel_index_bounds(n, x, y, z);
    let i = voxel_index(n, x, y, z);
    assert(i == (y * n + x) * n + z) by (nonlinear_arith)
        requires
            i == y * n * n + x * n + z,
    ;
    assert(0 <= y * n + x) by (nonlinear_arith)
        requires
            0 <= x,
            0 <= y,
            0 <= n,
    ;
    vstd::arithmetic::div_mod::lemma_fundamental_div_mod_converse(i, n, y * n + x, z);
    vstd::arithmetic::div_mod::lemma_fundamental_div_mod_converse(y * n + x, n, y, x);
}

impl<'b> ChunkGeneratorMF<'b> {
    /// The culled voxels of the chunk with its corner at `pos`: the terrain's block at each
    /// point of the chunk, layer by layer along y, then row by row along x, then culled.
    #[verifier::loop_isolation(false)]
    pub fn generate_voxel(&self, pos: (i32, i32, i32), cols: &TerrainColumns) -> (r: Vec<BlockCullType>)
        requires
            1 <= self.chunk_size <= MAX_CHUNK_SIZE,
            cols.wf(),
            cols.covers(pos.0 as int, pos.0 + self.chunk_size, pos.2 as int, pos.2 + self.chunk_size),
            -MAX_COORD <= pos.0 <= MAX_COORD,
            -MAX_COORD <= pos.1 <= MAX_COORD,
            -MAX_COORD <= pos.2 <= MAX_COORD,
        ensures
            r@.len() == self.chunk_size * self.chunk_size * self.chunk_size,
            forall|x: int, y: int, z: int| in_chunk(self.chunk_size as int, x, y, z) ==>
                r@[#[trigger] voxel_index(self.chunk_size as int, x, y, z)]
                    == culled(raw_voxels(*cols, pos, self.chunk_size as int), self.chunk_size as int, x, y, z),
            forall|x: int, y: int, z: int| in_chunk(self.chunk_size as int, x, y, z) ==>
                raw_voxels(*cols, pos, self.chunk_size as int)[#[trigger] voxel_index(self.chunk_size as int, x, y, z)]
                    == cols.block_at(pos.0 + x, pos.1 + y, pos.2 + z),
    {
        let ghost n = self.chunk_size as int;
        let ghost raw = raw_voxels(*cols, pos, n);
        let size = self.chunk_size;
        let mut voxels: Vec<BlockCullType> = Vec::new();
        let mut y: u32 = 0;
        while y < size
            invariant
                y <= size,
                n == size,
                raw == raw_voxels(*cols, pos, n),
                voxels@.len() == y * n * n,
                forall|j: int| 0 <= j < voxels@.len() ==> #[trigger] voxels@[j] == raw[j],
            decreases size - y,
        {
            let mut x: u32 = 0;
            while x < size
                invariant
                    y < size,
                    x <= size,
                    voxels@.len() == y * n * n + x * n,
                    forall|j: int| 0 <= j < voxels@.len() ==> #[trigger] voxels@[j] == raw[j],
                decreases size - x,
            {
                let mut z: u32 = 0;
                while z < size
                    invariant
                        y < size,
                        x < size,
                        z <= size,
                        voxels@.len() == y * n * n + x * n + z,
                        forall|j: int| 0 <= j < voxels@.len() ==> #[trigger] voxels@[j] == raw[j],
                    decreases size - z,
                {
                    proof { lemma_raw_voxel(*cols, pos, n, x as int, y as int, z as int); }
                    let b = cols.get_block(pos.0 + x as i32, pos.1 + y as i32, pos.2 + z as i32);
                    voxels.push(b);
                    z = z + 1;
                }
                proof {
                    assert(y * n * n + x * n + n == y * n * n + (x + 1) * n) by (nonlinear_arith);
                }
                x = x + 1;
            }
            proof {
                assert(y * n * n + n * n == (y + 1) * n * n) by (nonlinear_arith);
            }
            y = y + 1;
        }
        proof {
            assert(voxels@ =~= raw);
            assert(n * n * n <= 512 * 512 * 512) by (nonlinear_arith)
                requires
                    0 <= n <= 512,
            ;
            assert forall|x: int, y: int, z: int| in_chunk(n, x, y, z) implies
                raw[#[trigger] voxel_index(n, x, y, z)] == cols.block_at(pos.0 + x, pos.1 + y, pos.2 + z) by {
                lemma_raw_voxel(*cols, pos, n, x, y, z);
            }
        }
        self.block_culling(&mut voxels);
        voxels
    }
}

/// A loaded chunk of voxels: its corner, its coordinates, its loaded neighbours, its culled
/// voxels, its mesh, and whether it is drawn.
pub struct ChunkHF {
    pub pos: Length3D,
    pub hash_pos: Position,
    pub adjacency: ChunkAdjacency,
    pub voxels: Vec<BlockCullType>,
    pub mesh: Vec<MeshPart>,
    pub visible: bool,
}

pub open spec fn hf_has_key(chunks: Seq<ChunkHF>, k: Position) -> bool {
    exists|j: int| 0 <= j < chunks.len() && (#[trigger] chunks[j]).hash_pos == k
}

/// The voxels of the loaded chunk with the coordinates `k`.
pub open spec fn hf_voxels_at(chunks: Seq<ChunkHF>, k: Position) -> Seq<BlockCullType> {
    chunks[choose|j: int| 0 <= j < chunks.len() && (#[trigger] chunks[j]).hash_pos == k].voxels@
}

/// The corner of a chunk on the `i32` lattice.
pub open spec fn corner_of(p: Length3D) -> (i32, i32, i32) {
    (p.x as i32, p.y as i32, p.z as i32)
}

/// A coordinate one step outside the chunk, carried into the neighbouring chunk.
pub open spec fn wrap(a: int, n: int) -> int {
    if a < 0 { a + n } else if a >= n { a - n } else { a }
}

/// The chunk with the coordinates `k`.
pub fn find_hf(chunks: &Vec<ChunkHF>, k: Position) -> (r: usize)
    requires
        hf_has_key(chunks@, k),
    ensures
        r < chunks@.len(),
        chunks@[r as int].hash_pos == k,
{
    let mut i: usize = 0;
    while i < chunks.len()
        invariant
            i <= chunks@.len(),
            hf_has_key(chunks@, k),
            forall|j: int| 0 <= j < i ==> (#[trigger] chunks@[j]).hash_pos != k,
        decreases chunks@.len() - i,
    {
        if chunks[i].hash_pos == k {
            return i;
        }
        i = i + 1;
    }
    proof {
        let j = choose|j: int| 0 <= j < chunks@.len() && (#[trigger] chunks@[j]).hash_pos == k;
        assert(chunks@[j].hash_pos != k);
    }
    0
}

impl<'b> ChunkGeneratorMF<'b> {
    /// What the aggregation of voxel chunks needs: chunk indices within the `u32` range, no
    /// two chunks with the same coordinates, every chunk fit for meshing, and every link to
    /// a loaded chunk.
    pub open spec fn hf_chunks_ok(&self, chunks: Seq<ChunkHF>) -> bool {
        &&& forall|i: int, j: int| 0 <= i < chunks.len() && 0 <= j < chunks.len() && i != j ==>
            (#[trigger] chunks[i]).hash_pos != (#[trigger] chunks[j]).hash_pos
        &&& forall|i: int| 0 <= i < chunks.len() ==> {
            &&& self.hf_input_ok((#[trigger] chunks[i]).voxels@, corner_of(chunks[i].pos))
            &&& length_in_range(chunks[i].pos, MAX_COORD as int)
        }
        &&& forall|i: int, d: FaceDir| 0 <= i < chunks.len() ==>
            (#[trigger] adjacent(chunks[i].adjacency, d) matches Some(h) ==> hf_has_key(chunks, h))
    }

    /// The face of the voxel (x, y, z) of the chunk `c` looking to `d`, where its neighbour on
    /// that side lies in the linked chunk and does not hide it; none where no chunk is linked.
    pub open spec fn border_face(&self, chunks: Seq<ChunkHF>, c: int, x: int, y: int, z: int, d: FaceDir,
        m: TextureMapper<'b>) -> Seq<MeshItem>
    {
        let n = self.chunk_size as int;
        let o = dir_offset(d);
        let ch = chunks[c];
        if !in_chunk(n, x + o.0, y + o.1, z + o.2) {
            match adjacent(ch.adjacency, d) {
                Some(h) => if !spec_block_obscures(hf_voxels_at(chunks, h)[voxel_index(n, wrap(x + o.0, n), wrap(y + o.1, n), wrap(z + o.2, n))]) {
                    seq![MeshItem { loc: hf_loc(corner_of(ch.pos), x, y, z), dir: Some(d), txtr: self.face_txtr(m, d), fluid: false }]
                } else {
                    Seq::empty()
                },
                None => Seq::empty(),
            }
        } else {
            Seq::empty()
        }
    }

    /// The border faces of a cube voxel, in the order FRONT, RIGHT, BACK, LEFT, TOP, BOTTOM.
    pub open spec fn border_faces(&self, chunks: Seq<ChunkHF>, c: int, x: int, y: int, z: int,
        m: TextureMapper<'b>) -> Seq<MeshItem>
    {
        self.border_face(chunks, c, x, y, z, FaceDir::FRONT, m)
            + self.border_face(chunks, c, x, y, z, FaceDir::RIGHT, m)
            + self.border_face(chunks, c, x, y, z, FaceDir::BACK, m)
            + self.border_face(chunks, c, x, y, z, FaceDir::LEFT, m)
            + self.border_face(chunks, c, x, y, z, FaceDir::TOP, m)
            + self.border_face(chunks, c, x, y, z, FaceDir::BOTTOM, m)
    }

    /// The border faces of the voxel (x, y, z) of the chunk `c` for the blocks of
    /// transparency `t`: only cubes have them.
    pub open spec fn border_cell(&self, chunks: Seq<ChunkHF>, c: int, x: int, y: int, z: int,
        t: TransparencyType) -> Seq<MeshItem>
    {
        let n = self.chunk_size as int;
        match spec_drawn_block(chunks[c].voxels@[voxel_index(n, x, y, z)]) {
            Some(b) => {
                let data = self.block_ind@[b.0 as int];
                if data.transparency == t && data.mesh == MeshType::Cube {
                    self.border_faces(chunks, c, x, y, z, data.texture_id)
                } else {
                    Seq::empty()
                }
            },
            None => Seq::empty(),
        }
    }

    pub open spec fn border_col(&self, chunks: Seq<ChunkHF>, c: int, x: int, y: int, z: int,
        t: TransparencyType) -> Seq<MeshItem>
        decreases z,
    {
        if z <= 0 {
            Seq::empty()
        } else {
            self.border_col(chunks, c, x, y, z - 1, t) + self.border_cell(chunks, c, x, y, z - 1, t)
        }
    }

    pub open spec fn border_row(&self, chunks: Seq<ChunkHF>, c: int, x: int, y: int,
        t: TransparencyType) -> Seq<MeshItem>
        decreases y,
    {
        if y <= 0 {
            Seq::empty()
        } else {
            self.border_row(chunks, c, x, y - 1, t) + self.border_col(chunks, c, x, y - 1, self.chunk_size as int, t)
        }
    }

    /// The border faces of the chunk `c`, voxel after voxel by x, then y, then z.
    pub open spec fn border_all(&self, chunks: Seq<ChunkHF>, c: int, x: int, t: TransparencyType) -> Seq<MeshItem>
        decreases x,
    {
        if x <= 0 {
            Seq::empty()
        } else {
            self.border_all(chunks, c, x - 1, t) + self.border_row(chunks, c, x - 1, self.chunk_size as int, t)
        }
    }

    pub open spec fn border_before(&self, chunks: Seq<ChunkHF>, c: int, x: int, y: int, z: int,
        t: TransparencyType) -> Seq<MeshItem>
    {
        self.border_all(chunks, c, x, t) + self.border_row(chunks, c, x, y, t) + self.border_col(chunks, c, x, y, z, t)
    }

    /// The mesh of transparency `t` aggregated over the first `k` chunks: for each drawn
    /// chunk, its parts for that purpose, then its border faces.
    pub open spec fn agg_hf(&self, chunks: Seq<ChunkHF>, t: TransparencyType, k: int) -> Aggregate
        decreases k,
    {
        if k <= 0 {
            empty_agg()
        } else {
            let a = self.agg_hf(chunks, t, k - 1);
            let ch = chunks[k - 1];
            if ch.visible {
                items_from(agg_parts(a, ch.mesh@, purpose_of(t), ch.mesh@.len() as int),
                    self.border_all(chunks, k - 1, self.chunk_size as int, t))
            } else {
                a
            }
        }
    }

    /// Aggregating the first `k` chunks moves no index of a part past `u32::MAX`.
    pub open spec fn hf_fits(&self, chunks: Seq<ChunkHF>, t: TransparencyType, k: int) -> bool
        decreases k,
    {
        if k <= 0 {
            true
        } else {
            &&& self.hf_fits(chunks, t, k - 1)
            &&& (chunks[k - 1].visible ==> parts_fit(self.agg_hf(chunks, t, k - 1), chunks[k - 1].mesh@,
                purpose_of(t), chunks[k - 1].mesh@.len() as int))
        }
    }

    /// The aggregation fits the `u32` indices: for each purpose no index moves past
    /// `u32::MAX`, and the aggregated vertices can be counted by one.
    pub open spec fn hf_aggregate_fits(&self, chunks: Seq<ChunkHF>) -> bool {
        &&& self.hf_fits(chunks, TransparencyType::Opaque, chunks.len() as int)
        &&& self.hf_fits(chunks, TransparencyType::Transparent, chunks.len() as int)
        &&& self.hf_fits(chunks, TransparencyType::Translucent, chunks.len() as int)
        &&& self.agg_hf(chunks, TransparencyType::Opaque, chunks.len() as int).0.len() <= u32::MAX
        &&& self.agg_hf(chunks, TransparencyType::Transparent, chunks.len() as int).0.len() <= u32::MAX
        &&& self.agg_hf(chunks, TransparencyType::Translucent, chunks.len() as int).0.len() <= u32::MAX
    }
}

/// An aggregate holds at least four vertices per face.
pub open spec fn agg_ok(a: Aggregate) -> bool {
    0 <= a.2 && 4 * a.2 <= a.0.len()
}

pub proof fn lemma_items_grow(acc: Aggregate, s: Seq<MeshItem>)
    ensures
        items_from(acc, s).0.len() >= acc.0.len(),
        agg_ok(acc) ==> agg_ok(items_from(acc, s)),
    decreases s.len(),
{
    if s.len() > 0 {
        lemma_items_grow(acc, s.drop_last());
    }
}

pub proof fn lemma_items_grow_append(acc: Aggregate, s: Seq<MeshItem>, t: Seq<MeshItem>)
    ensures
        items_from(acc, s).0.len() <= items_from(acc, s + t).0.len(),
{
    lemma_items_from_append(acc, s, t);
    lemma_items_grow(items_from(acc, s), t);
}

pub proof fn lemma_parts_grow(acc: Aggregate, parts: Seq<MeshPart>, p: RenderDataPurpose, j: int, k: int)
    requires
        0 <= j <= k,
    ensures
        agg_parts(acc, parts, p, j).0.len() <= agg_parts(acc, parts, p, k).0.len(),
        acc.0.len() <= agg_parts(acc, parts, p, k).0.len(),
        agg_ok(acc) ==> agg_ok(agg_parts(acc, parts, p, k)),
    decreases k,
{
    if k > 0 {
        lemma_parts_grow(acc, parts, p, if j < k { j } else { k - 1 }, k - 1);
        let a = agg_parts(acc, parts, p, k - 1);
        let v = parts[k - 1].0@;
        assert(4 * (v.len() as int / 4) <= v.len()) by (nonlinear_arith);
        assert(0 <= v.len() as int / 4) by (nonlinear_arith);
    }
}

impl<'b> ChunkGeneratorMF<'b> {
    pub proof fn lemma_agg_hf_grow(&self, chunks: Seq<ChunkHF>, t: TransparencyType, j: int, k: int)
        requires
            0 <= j <= k,
        ensures
            self.agg_hf(chunks, t, j).0.len() <= self.agg_hf(chunks, t, k).0.len(),
            agg_ok(self.agg_hf(chunks, t, k)),
        decreases k,
    {
        if k > 0 {
            self.lemma_agg_hf_grow(chunks, t, if j < k { j } else { k - 1 }, k - 1);
            let a = self.agg_hf(chunks, t, k - 1);
            let ch = chunks[k - 1];
            if ch.visible {
                let p = agg_parts(a, ch.mesh@, purpose_of(t), ch.mesh@.len() as int);
                lemma_parts_grow(a, ch.mesh@, purpose_of(t), 0, ch.mesh@.len() as int);
                lemma_items_grow(p, self.border_all(chunks, k - 1, self.chunk_size as int, t));
            }
        } else {
            assert(agg_ok(empty_agg()));
        }
    }

    pub proof fn lemma_hf_fits_prefix(&self, chunks: Seq<ChunkHF>, t: TransparencyType, j: int, k: int)
        requires
            0 <= j <= k,
            self.hf_fits(chunks, t, k),
        ensures
            self.hf_fits(chunks, t, j),
        decreases k - j,
    {
        if j < k {
            self.lemma_hf_fits_prefix(chunks, t, j, k - 1);
        }
    }

    /// The border faces up to a voxel come before those of the whole chunk: the mesh
    /// aggregated up to it is no larger.
    pub proof fn lemma_border_grow(&self, chunks: Seq<ChunkHF>, c: int, base: Aggregate, x: int, y: int, z: int,
        t: TransparencyType)
        requires
            0 <= x < self.chunk_size,
            0 <= y < self.chunk_size,
            0 <= z < self.chunk_size,
        ensures
            items_from(base, self.border_before(chunks, c, x, y, z, t) + self.border_cell(chunks, c, x, y, z, t)).0.len()
                <= items_from(base, self.border_all(chunks, c, self.chunk_size as int, t)).0.len(),
    {
        let n = self.chunk_size as int;
        let pre = self.border_all(chunks, c, x, t) + self.border_row(chunks, c, x, y, t);
        self.lemma_col_grow(chunks, c, base, pre, x, y, z + 1, n, t);
        assert(self.border_before(chunks, c, x, y, z, t) + self.border_cell(chunks, c, x, y, z, t)
            =~= pre + self.border_col(chunks, c, x, y, z + 1, t));
        let pre2 = self.border_all(chunks, c, x, t);
        assert(pre + self.border_col(chunks, c, x, y, n, t) =~= pre2 + self.border_row(chunks, c, x, y + 1, t));
        self.lemma_row_grow(chunks, c, base, pre2, x, y + 1, n, t);
        assert(self.border_all(chunks, c, x + 1, t) == pre2 + self.border_row(chunks, c, x, n, t));
        self.lemma_all_grow(chunks, c, base, x + 1, n, t);
    }

    proof fn lemma_col_grow(&self, chunks: Seq<ChunkHF>, c: int, base: Aggregate, pre: Seq<MeshItem>, x: int, y: int,
        z: int, w: int, t: TransparencyType)
        requires
            0 <= z <= w,
        ensures
            items_from(base, pre + self.border_col(chunks, c, x, y, z, t)).0.len()
                <= items_from(base, pre + self.border_col(chunks, c, x, y, w, t)).0.len(),
        decreases w - z,
    {
        if z < w {
            self.lemma_col_grow(chunks, c, base, pre, x, y, z, w - 1, t);
            let a = pre + self.border_col(chunks, c, x, y, w - 1, t);
            lemma_items_grow_append(base, a, self.border_cell(chunks, c, x, y, w - 1, t));
            assert(pre + self.border_col(chunks, c, x, y, w, t) =~= a + self.border_cell(chunks, c, x, y, w - 1, t));
        }
    }

    proof fn lemma_row_grow(&self, chunks: Seq<ChunkHF>, c: int, base: Aggregate, pre: Seq<MeshItem>, x: int,
        y: int, w: int, t: TransparencyType)
        requires
            0 <= y <= w,
        ensures
            items_from(base, pre + self.border_row(chunks, c, x, y, t)).0.len()
                <= items_from(base, pre + self.border_row(chunks, c, x, w, t)).0.len(),
        decreases w - y,
    {
        if y < w {
            self.lemma_row_grow(chunks, c, base, pre, x, y, w - 1, t);
            let a = pre + self.border_row(chunks, c, x, w - 1, t);
            let b = self.border_col(chunks, c, x, w - 1, self.chunk_size as int, t);
            lemma_items_grow_append(base, a, b);
            assert(pre + self.border_row(chunks, c, x, w, t) =~= a + b);
        }
    }

    proof fn lemma_all_grow(&self, chunks: Seq<ChunkHF>, c: int, base: Aggregate, x: int, w: int, t: TransparencyType)
        requires
            0 <= x <= w,
        ensures
            items_from(base, self.border_all(chunks, c, x, t)).0.len()
                <= items_from(base, self.border_all(chunks, c, w, t)).0.len(),
        decreases w - x,
    {
        if x < w {
            self.lemma_all_grow(chunks, c, base, x, w - 1, t);
            lemma_items_grow_append(base, self.border_all(chunks, c, w - 1, t),
                self.border_row(chunks, c, w - 1, self.chunk_size as int, t));
        }
    }
}

/// Appending six runs of items one after another: each step appends the next run, and
/// no step's mesh is larger than the last.
proof fn lemma_six_steps(a0: Aggregate, f1: Seq<MeshItem>, f2: Seq<MeshItem>, f3: Seq<MeshItem>, f4: Seq<MeshItem>,
    f5: Seq<MeshItem>, f6: Seq<MeshItem>)
    ensures
        items_from(items_from(a0, f1), f2) == items_from(a0, f1 + f2),
        items_from(items_from(a0, f1 + f2), f3) == items_from(a0, f1 + f2 + f3),
        items_from(items_from(a0, f1 + f2 + f3), f4) == items_from(a0, f1 + f2 + f3 + f4),
        items_from(items_from(a0, f1 + f2 + f3 + f4), f5) == items_from(a0, f1 + f2 + f3 + f4 + f5),
        items_from(items_from(a0, f1 + f2 + f3 + f4 + f5), f6) == items_from(a0, f1 + f2 + f3 + f4 + f5 + f6),
        items_from(a0, f1).0.len() <= items_from(a0, f1 + f2 + f3 + f4 + f5 + f6).0.len(),
        items_from(a0, f1 + f2).0.len() <= items_from(a0, f1 + f2 + f3 + f4 + f5 + f6).0.len(),
        items_from(a0, f1 + f2 + f3).0.len() <= items_from(a0, f1 + f2 + f3 + f4 + f5 + f6).0.len(),
        items_from(a0, f1 + f2 + f3 + f4).0.len() <= items_from(a0, f1 + f2 + f3 + f4 + f5 + f6).0.len(),
        items_from(a0, f1 + f2 + f3 + f4 + f5).0.len() <= items_from(a0, f1 + f2 + f3 + f4 + f5 + f6).0.len(),
        agg_ok(a0) ==> agg_ok(items_from(a0, f1)),
        agg_ok(a0) ==> agg_ok(items_from(a0, f1 + f2)),
        agg_ok(a0) ==> agg_ok(items_from(a0, f1 + f2 + f3)),
        agg_ok(a0) ==> agg_ok(items_from(a0, f1 + f2 + f3 + f4)),
        agg_ok(a0) ==> agg_ok(items_from(a0, f1 + f2 + f3 + f4 + f5)),
{
    let p1 = f1;
    let p2 = p1 + f2;
    let p3 = p2 + f3;
    let p4 = p3 + f4;
    let p5 = p4 + f5;
    let p6 = p5 + f6;
    lemma_items_from_append(a0, p1, f2);
    lemma_items_from_append(a0, p2, f3);
    lemma_items_from_append(a0, p3, f4);
    lemma_items_from_append(a0, p4, f5);
    lemma_items_from_append(a0, p5, f6);
    lemma_items_grow(a0, p1);
    lemma_items_grow(a0, p2);
    lemma_items_grow(a0, p3);
    lemma_items_grow(a0, p4);
    lemma_items_grow(a0, p5);
    lemma_items_grow(items_from(a0, p1), f2);
    lemma_items_grow(items_from(a0, p2), f3);
    lemma_items_grow(items_from(a0, p3), f4);
    lemma_items_grow(items_from(a0, p4), f5);
    lemma_items_grow(items_from(a0, p5), f6);
}

/// The coordinate `a`, one step outside a chunk of `n` blocks at most, carried into the
/// neighbouring chunk.
fn wrap_exec(a: i32, n: u32) -> (r: u32)
    requires
        1 <= n <= MAX_CHUNK_SIZE,
        -1 <= a <= n,
    ensures
        r as int == wrap(a as int, n as int),
{
    if a < 0 {
        (a + n as i32) as u32
    } else if a >= n as i32 {
        (a - n as i32) as u32
    } else {
        a as u32
    }
}

impl<'b> ChunkGeneratorMF<'b> {
    /// Appends the face of the voxel (x, y, z) of the chunk `c` looking to `d` where its
    /// neighbour on that side lies in the linked chunk and does not hide it.
    fn border_face_into(&self, acc: &mut MeshAggregate, chunks: &Vec<ChunkHF>, c: usize, x: u32, y: u32, z: u32,
        d: FaceDir, m: TextureMapper<'b>)
        requires
            self.hf_chunks_ok(chunks@),
            c < chunks@.len(),
            in_chunk(self.chunk_size as int, x as int, y as int, z as int),
            agg_ok(old(acc).view()),
            items_from(old(acc).view(), self.border_face(chunks@, c as int, x as int, y as int, z as int, d, m)).0.len() <= u32::MAX,
        ensures
            final(acc).view() == items_from(old(acc).view(), self.border_face(chunks@, c as int, x as int, y as int, z as int, d, m)),
    {
        let ghost n = self.chunk_size as int;
        let ghost cs = chunks@;
        let ghost f = self.border_face(cs, c as int, x as int, y as int, z as int, d, m);
        proof { assert(self.hf_input_ok(cs[c as int].voxels@, corner_of(cs[c as int].pos))); }
        let (dx, dy, dz) = side_step(d);
        let a = x as i32 + dx;
        let b = y as i32 + dy;
        let e = z as i32 + dz;
        if !self.check_coord_within_chunk(a, b, e) {
            let adj = chunks[c].adjacency.get(d);
            proof { assert(adjacent(cs[c as int].adjacency, d) == adj); }
            match adj {
                Some(h) => {
                    let j = find_hf(chunks, h);
                    proof {
                        let k = choose|k: int| 0 <= k < cs.len() && (#[trigger] cs[k]).hash_pos == h;
                        if k != j {
                            assert(cs[k].hash_pos != cs[j as int].hash_pos);
                        }
                        assert(hf_voxels_at(cs, h) == cs[j as int].voxels@);
                        assert(self.hf_input_ok(cs[j as int].voxels@, corner_of(cs[j as int].pos)));
                    }
                    let wa = wrap_exec(a, self.chunk_size);
                    let wb = wrap_exec(b, self.chunk_size);
                    let we = wrap_exec(e, self.chunk_size);
                    proof { lemma_small_index(n, wa as int, wb as int, we as int); }
                    let nb = chunks[j].voxels[self.access(wa, wb, we)];
                    if !nb.check_block_obscured() {
                        let p = chunks[c].pos;
                        let loc = (p.x as i32 + x as i32, p.y as i32 + y as i32, -(p.z as i32) - z as i32);
                        let ghost it = MeshItem { loc, dir: Some(d), txtr: self.face_txtr(m, d), fluid: false };
                        proof {
                            assert(loc == hf_loc(corner_of(cs[c as int].pos), x as int, y as int, z as int));
                            assert(f == seq![it]);
                            lemma_one_item(acc.view(), it);
                        }
                        add_face(self, acc, loc, d, m, false);
                    } else {
                        assert(f == Seq::<MeshItem>::empty());
                    }
                },
                None => {
                    assert(f == Seq::<MeshItem>::empty());
                },
            }
        } else {
            assert(f == Seq::<MeshItem>::empty());
        }
    }

    /// Appends the border faces of the cube voxel (x, y, z) of the chunk `c`.
    fn border_faces_into(&self, acc: &mut MeshAggregate, chunks: &Vec<ChunkHF>, c: usize, x: u32, y: u32, z: u32,
        m: TextureMapper<'b>)
        requires
            self.hf_chunks_ok(chunks@),
            c < chunks@.len(),
            in_chunk(self.chunk_size as int, x as int, y as int, z as int),
            agg_ok(old(acc).view()),
            items_from(old(acc).view(), self.border_faces(chunks@, c as int, x as int, y as int, z as int, m)).0.len() <= u32::MAX,
        ensures
            final(acc).view() == items_from(old(acc).view(), self.border_faces(chunks@, c as int, x as int, y as int, z as int, m)),
    {
        let ghost cs = chunks@;
        let ghost (ci, xi, yi, zi) = (c as int, x as int, y as int, z as int);
        let ghost a0 = acc.view();
        let ghost f1 = self.border_face(cs, ci, xi, yi, zi, FaceDir::FRONT, m);
        let ghost f2 = self.border_face(cs, ci, xi, yi, zi, FaceDir::RIGHT, m);
        let ghost f3 = self.border_face(cs, ci, xi, yi, zi, FaceDir::BACK, m);
        let ghost f4 = self.border_face(cs, ci, xi, yi, zi, FaceDir::LEFT, m);
        let ghost f5 = self.border_face(cs, ci, xi, yi, zi, FaceDir::TOP, m);
        let ghost f6 = self.border_face(cs, ci, xi, yi, zi, FaceDir::BOTTOM, m);
        proof { lemma_six_steps(a0, f1, f2, f3, f4, f5, f6); }
        self.border_face_into(acc, chunks, c, x, y, z, FaceDir::FRONT, m);
        self.border_face_into(acc, chunks, c, x, y, z, FaceDir::RIGHT, m);
        self.border_face_into(acc, chunks, c, x, y, z, FaceDir::BACK, m);
        self.border_face_into(acc, chunks, c, x, y, z, FaceDir::LEFT, m);
        self.border_face_into(acc, chunks, c, x, y, z, FaceDir::TOP, m);
        self.border_face_into(acc, chunks, c, x, y, z, FaceDir::BOTTOM, m);
    }

    /// Appends the border faces of the voxel (x, y, z) of the chunk `c` to the mesh of its
    /// block's transparency.
    fn border_cell_into(&self, opaque: &mut MeshAggregate, transparent: &mut MeshAggregate,
        translucent: &mut MeshAggregate, chunks: &Vec<ChunkHF>, c: usize, x: u32, y: u32, z: u32)
        requires
            self.hf_chunks_ok(chunks@),
            c < chunks@.len(),
            in_chunk(self.chunk_size as int, x as int, y as int, z as int),
            agg_ok(old(opaque).view()),
            agg_ok(old(transparent).view()),
            agg_ok(old(translucent).view()),
            items_from(old(opaque).view(), self.border_cell(chunks@, c as int, x as int, y as int, z as int,
                TransparencyType::Opaque)).0.len() <= u32::MAX,
            items_from(old(transparent).view(), self.border_cell(chunks@, c as int, x as int, y as int, z as int,
                TransparencyType::Transparent)).0.len() <= u32::MAX,
            items_from(old(translucent).view(), self.border_cell(chunks@, c as int, x as int, y as int, z as int,
                TransparencyType::Translucent)).0.len() <= u32::MAX,
        ensures
            final(opaque).view() == items_from(old(opaque).view(),
                self.border_cell(chunks@, c as int, x as int, y as int, z as int, TransparencyType::Opaque)),
            final(transparent).view() == items_from(old(transparent).view(),
                self.border_cell(chunks@, c as int, x as int, y as int, z as int, TransparencyType::Transparent)),
            final(translucent).view() == items_from(old(translucent).view(),
                self.border_cell(chunks@, c as int, x as int, y as int, z as int, TransparencyType::Translucent)),
    {
        let ghost n = self.chunk_size as int;
        let ghost cs = chunks@;
        proof {
            assert(self.hf_input_ok(cs[c as int].voxels@, corner_of(cs[c as int].pos)));
            lemma_small_index(n, x as int, y as int, z as int);
        }
        let v = chunks[c].voxels[self.access(x, y, z)];
        if let Some(b) = v.drawn_block() {
            let data = self.block_ind(b.0 as usize);
            match data.mesh {
                MeshType::Cube => {
                    let acc = match data.transparency {
                        TransparencyType::Opaque => opaque,
                        TransparencyType::Transparent => transparent,
                        TransparencyType::Translucent => translucent,
                    };
                    self.border_faces_into(acc, chunks, c, x, y, z, data.texture_id);
                },
                _ => {},
            }
        }
    }
}

/// Appends the parts of a chunk's mesh, each to the aggregate of its purpose.
#[verifier::loop_isolation(false)]
fn parts_into(opaque: &mut MeshAggregate, transparent: &mut MeshAggregate, translucent: &mut MeshAggregate,
    mesh: &Vec<MeshPart>)
    requires
        agg_ok(old(opaque).view()),
        agg_ok(old(transparent).view()),
        agg_ok(old(translucent).view()),
        parts_fit(old(opaque).view(), mesh@, RenderDataPurpose::TerrainOpaque, mesh@.len() as int),
        parts_fit(old(transparent).view(), mesh@, RenderDataPurpose::TerrainTransparent, mesh@.len() as int),
        parts_fit(old(translucent).view(), mesh@, RenderDataPurpose::TerrainTranslucent, mesh@.len() as int),
        agg_parts(old(opaque).view(), mesh@, RenderDataPurpose::TerrainOpaque, mesh@.len() as int).0.len() <= u32::MAX,
        agg_parts(old(transparent).view(), mesh@, RenderDataPurpose::TerrainTransparent, mesh@.len() as int).0.len() <= u32::MAX,
        agg_parts(old(translucent).view(), mesh@, RenderDataPurpose::TerrainTranslucent, mesh@.len() as int).0.len() <= u32::MAX,
    ensures
        final(opaque).view() == agg_parts(old(opaque).view(), mesh@, RenderDataPurpose::TerrainOpaque, mesh@.len() as int),
        final(transparent).view() == agg_parts(old(transparent).view(), mesh@, RenderDataPurpose::TerrainTransparent, mesh@.len() as int),
        final(translucent).view() == agg_parts(old(translucent).view(), mesh@, RenderDataPurpose::TerrainTranslucent, mesh@.len() as int),
{
    let ghost m = mesh@;
    let ghost (a0, b0, c0) = (opaque.view(), transparent.view(), translucent.view());
    let ghost po = RenderDataPurpose::TerrainOpaque;
    let ghost pt = RenderDataPurpose::TerrainTransparent;
    let ghost pl = RenderDataPurpose::TerrainTranslucent;
    let mut k: usize = 0;
    while k < mesh.len()
        invariant
            k <= m.len(),
            m == mesh@,
            opaque.view() == agg_parts(a0, m, po, k as int),
            transparent.view() == agg_parts(b0, m, pt, k as int),
            translucent.view() == agg_parts(c0, m, pl, k as int),
            agg_ok(opaque.view()),
            agg_ok(transparent.view()),
            agg_ok(translucent.view()),
        decreases m.len() - k,
    {
        let part = &mesh[k];
        proof {
            let len = m.len() as int;
            lemma_parts_fit_prefix(a0, m, po, k + 1, len);
            lemma_parts_fit_prefix(b0, m, pt, k + 1, len);
            lemma_parts_fit_prefix(c0, m, pl, k + 1, len);
            lemma_parts_grow(a0, m, po, k + 1, len);
            lemma_parts_grow(b0, m, pt, k + 1, len);
            lemma_parts_grow(c0, m, pl, k + 1, len);
        }
        match part.3 {
            RenderDataPurpose::TerrainOpaque => {
                append_part(&mut opaque.verts, &mut opaque.inds, &mut opaque.faces, &part.0, &part.1);
            },
            RenderDataPurpose::TerrainTransparent => {
                append_part(&mut transparent.verts, &mut transparent.inds, &mut transparent.faces, &part.0, &part.1);
            },
            RenderDataPurpose::TerrainTranslucent => {
                append_part(&mut translucent.verts, &mut translucent.inds, &mut translucent.faces, &part.0, &part.1);
            },
            _ => {},
        }
        proof {
            lemma_parts_grow(a0, m, po, k + 1, k + 1);
            lemma_parts_grow(b0, m, pt, k + 1, k + 1);
            lemma_parts_grow(c0, m, pl, k + 1, k + 1);
        }
        k = k + 1;
    }
}

impl<'b> ChunkGeneratorMF<'b> {
    proof fn lemma_border_next_cell(&self, cs: Seq<ChunkHF>, c: int, x: int, y: int, z: int)
        requires
            0 <= z,
        ensures
            forall|t: TransparencyType| #[trigger] self.border_before(cs, c, x, y, z + 1, t)
                == self.border_before(cs, c, x, y, z, t) + self.border_cell(cs, c, x, y, z, t),
    {
        assert forall|t: TransparencyType| #[trigger] self.border_before(cs, c, x, y, z + 1, t)
            == self.border_before(cs, c, x, y, z, t) + self.border_cell(cs, c, x, y, z, t) by {
            assert(self.border_col(cs, c, x, y, z + 1, t) == self.border_col(cs, c, x, y, z, t) + self.border_cell(cs, c, x, y, z, t));
            assert(self.border_before(cs, c, x, y, z + 1, t) =~= self.border_before(cs, c, x, y, z, t) + self.border_cell(cs, c, x, y, z, t));
        }
    }

    proof fn lemma_border_next_col(&self, cs: Seq<ChunkHF>, c: int, x: int, y: int)
        requires
            0 <= y,
        ensures
            forall|t: TransparencyType| #[trigger] self.border_before(cs, c, x, y + 1, 0, t)
                == self.border_before(cs, c, x, y, self.chunk_size as int, t),
    {
        assert forall|t: TransparencyType| #[trigger] self.border_before(cs, c, x, y + 1, 0, t)
            == self.border_before(cs, c, x, y, self.chunk_size as int, t) by {
            assert(self.border_row(cs, c, x, y + 1, t) == self.border_row(cs, c, x, y, t) + self.border_col(cs, c, x, y, self.chunk_size as int, t));
            assert(self.border_before(cs, c, x, y + 1, 0, t) =~= self.border_before(cs, c, x, y, self.chunk_size as int, t));
        }
    }

    proof fn lemma_border_next_row(&self, cs: Seq<ChunkHF>, c: int, x: int)
        requires
            0 <= x,
        ensures
            forall|t: TransparencyType| #[trigger] self.border_before(cs, c, x + 1, 0, 0, t)
                == self.border_before(cs, c, x, self.chunk_size as int, 0, t),
            forall|t: TransparencyType| #[trigger] self.border_before(cs, c, x, 0, 0, t) == self.border_all(cs, c, x, t),
    {
        assert forall|t: TransparencyType| #[trigger] self.border_before(cs, c, x + 1, 0, 0, t)
            == self.border_before(cs, c, x, self.chunk_size as int, 0, t) by {
            assert(self.border_all(cs, c, x + 1, t) == self.border_all(cs, c, x, t) + self.border_row(cs, c, x, self.chunk_size as int, t));
            assert(self.border_before(cs, c, x + 1, 0, 0, t) =~= self.border_before(cs, c, x, self.chunk_size as int, 0, t));
        }
        assert forall|t: TransparencyType| #[trigger] self.border_before(cs, c, x, 0, 0, t) == self.border_all(cs, c, x, t) by {
            assert(self.border_before(cs, c, x, 0, 0, t) =~= self.border_all(cs, c, x, t));
        }
    }

    /// Appends the border faces of the chunk `c`, voxel after voxel.
    #[verifier::loop_isolation(false)]
    fn border_scan_into(&self, opaque: &mut MeshAggregate, transparent: &mut MeshAggregate,
        translucent: &mut MeshAggregate, chunks: &Vec<ChunkHF>, c: usize)
        requires
            self.hf_chunks_ok(chunks@),
            c < chunks@.len(),
            self.chunk_size <= MAX_CHUNK_SIZE,
            agg_ok(old(opaque).view()),
            agg_ok(old(transparent).view()),
            agg_ok(old(translucent).view()),
            items_from(old(opaque).view(), self.border_all(chunks@, c as int, self.chunk_size as int,
                TransparencyType::Opaque)).0.len() <= u32::MAX,
            items_from(old(transparent).view(), self.border_all(chunks@, c as int, self.chunk_size as int,
                TransparencyType::Transparent)).0.len() <= u32::MAX,
            items_from(old(translucent).view(), self.border_all(chunks@, c as int, self.chunk_size as int,
                TransparencyType::Translucent)).0.len() <= u32::MAX,
        ensures
            final(opaque).view() == items_from(old(opaque).view(), self.border_all(chunks@, c as int, self.chunk_size as int,
                TransparencyType::Opaque)),
            final(transparent).view() == items_from(old(transparent).view(), self.border_all(chunks@, c as int,
                self.chunk_size as int, TransparencyType::Transparent)),
            final(translucent).view() == items_from(old(translucent).view(), self.border_all(chunks@, c as int,
                self.chunk_size as int, TransparencyType::Translucent)),
    {
        let ghost cs = chunks@;
        let ghost ci = c as int;
        let ghost n = self.chunk_size as int;
        let ghost to = TransparencyType::Opaque;
        let ghost tt = TransparencyType::Transparent;
        let ghost tl = TransparencyType::Translucent;
        let ghost (a0, b0, c0) = (opaque.view(), transparent.view(), translucent.view());
        proof {
            self.lemma_border_next_row(cs, ci, 0);
            assert(self.border_all(cs, ci, 0, to) == Seq::<MeshItem>::empty());
            assert(self.border_all(cs, ci, 0, tt) == Seq::<MeshItem>::empty());
            assert(self.border_all(cs, ci, 0, tl) == Seq::<MeshItem>::empty());
        }
        let size = self.chunk_size;
        let mut x: u32 = 0;
        while x < size
            invariant
                x <= size,
                n == size,
                cs == chunks@,
                opaque.view() == items_from(a0, self.border_before(cs, ci, x as int, 0, 0, to)),
                transparent.view() == items_from(b0, self.border_before(cs, ci, x as int, 0, 0, tt)),
                translucent.view() == items_from(c0, self.border_before(cs, ci, x as int, 0, 0, tl)),
                agg_ok(opaque.view()),
                agg_ok(transparent.view()),
                agg_ok(translucent.view()),
            decreases size - x,
        {
            let mut y: u32 = 0;
            while y < size
                invariant
                    x < size,
                    y <= size,
                    opaque.view() == items_from(a0, self.border_before(cs, ci, x as int, y as int, 0, to)),
                    transparent.view() == items_from(b0, self.border_before(cs, ci, x as int, y as int, 0, tt)),
                    translucent.view() == items_from(c0, self.border_before(cs, ci, x as int, y as int, 0, tl)),
                    agg_ok(opaque.view()),
                    agg_ok(transparent.view()),
                    agg_ok(translucent.view()),
                decreases size - y,
            {
                let mut z: u32 = 0;
                while z < size
                    invariant
                        x < size,
                        y < size,
                        z <= size,
                        opaque.view() == items_from(a0, self.border_before(cs, ci, x as int, y as int, z as int, to)),
                        transparent.view() == items_from(b0, self.border_before(cs, ci, x as int, y as int, z as int, tt)),
                        translucent.view() == items_from(c0, self.border_before(cs, ci, x as int, y as int, z as int, tl)),
                        agg_ok(opaque.view()),
                        agg_ok(transparent.view()),
                        agg_ok(translucent.view()),
                    decreases size - z,
                {
                    let ghost (xi, yi, zi) = (x as int, y as int, z as int);
                    proof {
                        self.lemma_border_grow(cs, ci, a0, xi, yi, zi, to);
                        self.lemma_border_grow(cs, ci, b0, xi, yi, zi, tt);
                        self.lemma_border_grow(cs, ci, c0, xi, yi, zi, tl);
                        lemma_items_from_append(a0, self.border_before(cs, ci, xi, yi, zi, to), self.border_cell(cs, ci, xi, yi, zi, to));
                        lemma_items_from_append(b0, self.border_before(cs, ci, xi, yi, zi, tt), self.border_cell(cs, ci, xi, yi, zi, tt));
                        lemma_items_from_append(c0, self.border_before(cs, ci, xi, yi, zi, tl), self.border_cell(cs, ci, xi, yi, zi, tl));
                        self.lemma_border_next_cell(cs, ci, xi, yi, zi);
                    }
                    self.border_cell_into(opaque, transparent, translucent, chunks, c, x, y, z);
                    proof {
                        lemma_items_grow(opaque.view(), Seq::empty());
                        lemma_items_grow(a0, self.border_before(cs, ci, xi, yi, zi + 1, to));
                        lemma_items_grow(b0, self.border_before(cs, ci, xi, yi, zi + 1, tt));
                        lemma_items_grow(c0, self.border_before(cs, ci, xi, yi, zi + 1, tl));
                    }
                    z = z + 1;
                }
                proof { self.lemma_border_next_col(cs, ci, x as int, y as int); }
                y = y + 1;
            }
            proof { self.lemma_border_next_row(cs, ci, x as int); }
            x = x + 1;
        }
        proof {
            self.lemma_border_next_row(cs, ci, n);
        }
    }
}

impl<'b> ChunkGeneratorMF<'b> {
    /// One mesh per render purpose (opaque, transparent, translucent) of the drawn voxel
    /// chunks: each chunk's parts for the purpose, with their indices moved past the faces
    /// aggregated before them, then the chunk's border faces, each where the voxel next to it
    /// in the linked chunk does not hide it, and none where no chunk is linked.
    #[verifier::loop_isolation(false)]
    pub fn aggregate_mesh_hf(&self, chunks: &Vec<ChunkHF>) -> (r: Vec<(Vec<ChunkVertex>, Vec<u32>, RenderDataPurpose)>)
        requires
            self.hf_chunks_ok(chunks@),
            self.hf_aggregate_fits(chunks@),
        ensures
            r@.len() == 3,
            r@[0].0@ == self.agg_hf(chunks@, TransparencyType::Opaque, chunks@.len() as int).0,
            r@[0].1@ == self.agg_hf(chunks@, TransparencyType::Opaque, chunks@.len() as int).1,
            r@[0].2 == RenderDataPurpose::TerrainOpaque,
            r@[1].0@ == self.agg_hf(chunks@, TransparencyType::Transparent, chunks@.len() as int).0,
            r@[1].1@ == self.agg_hf(chunks@, TransparencyType::Transparent, chunks@.len() as int).1,
            r@[1].2 == RenderDataPurpose::TerrainTransparent,
            r@[2].0@ == self.agg_hf(chunks@, TransparencyType::Translucent, chunks@.len() as int).0,
            r@[2].1@ == self.agg_hf(chunks@, TransparencyType::Translucent, chunks@.len() as int).1,
            r@[2].2 == RenderDataPurpose::TerrainTranslucent,
    {
        let ghost cs = chunks@;
        let ghost nn = cs.len() as int;
        let ghost n = self.chunk_size as int;
        let ghost to = TransparencyType::Opaque;
        let ghost tt = TransparencyType::Transparent;
        let ghost tl = TransparencyType::Translucent;
        let mut opaque = MeshAggregate { verts: Vec::new(), inds: Vec::new(), faces: 0 };
        let mut transparent = MeshAggregate { verts: Vec::new(), inds: Vec::new(), faces: 0 };
        let mut translucent = MeshAggregate { verts: Vec::new(), inds: Vec::new(), faces: 0 };
        proof {
            if nn > 0 {
                assert(self.hf_input_ok(cs[0].voxels@, corner_of(cs[0].pos)));
            }
        }
        let mut c: usize = 0;
        while c < chunks.len()
            invariant
                c <= nn,
                cs == chunks@,
                opaque.view() == self.agg_hf(cs, to, c as int),
                transparent.view() == self.agg_hf(cs, tt, c as int),
                translucent.view() == self.agg_hf(cs, tl, c as int),
            decreases nn - c,
        {
            let chunk = &chunks[c];
            proof {
                self.lemma_agg_hf_grow(cs, to, c + 1, nn);
                self.lemma_agg_hf_grow(cs, tt, c + 1, nn);
                self.lemma_agg_hf_grow(cs, tl, c + 1, nn);
                self.lemma_agg_hf_grow(cs, to, c as int, c as int);
                self.lemma_agg_hf_grow(cs, tt, c as int, c as int);
                self.lemma_agg_hf_grow(cs, tl, c as int, c as int);
                self.lemma_hf_fits_prefix(cs, to, c + 1, nn);
                self.lemma_hf_fits_prefix(cs, tt, c + 1, nn);
                self.lemma_hf_fits_prefix(cs, tl, c + 1, nn);
                assert(self.hf_input_ok(cs[c as int].voxels@, corner_of(cs[c as int].pos)));
            }
            if chunk.visible {
                let ghost m = chunk.mesh@;
                proof {
                    let len = m.len() as int;
                    lemma_parts_grow(opaque.view(), m, purpose_of(to), len, len);
                    lemma_parts_grow(transparent.view(), m, purpose_of(tt), len, len);
                    lemma_parts_grow(translucent.view(), m, purpose_of(tl), len, len);
                    lemma_items_grow(agg_parts(opaque.view(), m, purpose_of(to), len), self.border_all(cs, c as int, n, to));
                    lemma_items_grow(agg_parts(transparent.view(), m, purpose_of(tt), len), self.border_all(cs, c as int, n, tt));
                    lemma_items_grow(agg_parts(translucent.view(), m, purpose_of(tl), len), self.border_all(cs, c as int, n, tl));
                }
                parts_into(&mut opaque, &mut transparent, &mut translucent, &chunk.mesh);
                self.border_scan_into(&mut opaque, &mut transparent, &mut translucent, chunks, c);
            }
            c = c + 1;
        }
        let mut r: Vec<(Vec<ChunkVertex>, Vec<u32>, RenderDataPurpose)> = Vec::new();
        r.push((opaque.verts, opaque.inds, RenderDataPurpose::TerrainOpaque));
        r.push((transparent.verts, transparent.inds, RenderDataPurpose::TerrainTransparent));
        r.push((translucent.verts, translucent.inds, RenderDataPurpose::TerrainTranslucent));
        r
    }
}

/// The face item, looking to `d`, of the voxel (x, y, z) of the chunk with its corner at
/// `pos`, drawn with the texture id `txtr`.
pub open spec fn face_item(pos: (i32, i32, i32), x: int, y: int, z: int, d: FaceDir, txtr: u32, fluid: bool) -> MeshItem {
    MeshItem { loc: hf_loc(pos, x, y, z), dir: Some(d), txtr, fluid }
}

/// A voxel that hides the face of a solid block next to it: an unculled or culled solid.
pub open spec fn solid_voxel(b: BlockCullType) -> bool {
    b is BorderVisible0 || b is Obscured
}

/// A voxel that hides the face of a fluid block next to it: any solid or fluid, culled or not.
pub open spec fn wet_or_solid_voxel(b: BlockCullType) -> bool {
    b is BorderVisible0 || b is Obscured || b is BorderVisibleFluid0 || b is ObscuredFluid
}

pub proof fn lemma_contains_concat(a: Seq<MeshItem>, b: Seq<MeshItem>, it: MeshItem)
    ensures
        (a + b).contains(it) <==> (a.contains(it) || b.contains(it)),
{
    if (a + b).contains(it) {
        let i = choose|i: int| 0 <= i < (a + b).len() && (a + b)[i] == it;
        if i < a.len() {
            assert(a[i] == it);
        } else {
            assert(b[i - a.len()] == it);
        }
    }
    if a.contains(it) {
        let i = choose|i: int| 0 <= i < a.len() && a[i] == it;
        assert((a + b)[i] == it);
    }
    if b.contains(it) {
        let i = choose|i: int| 0 <= i < b.len() && b[i] == it;
        assert((a + b)[a.len() + i] == it);
    }
}

/// Six runs, one per side, each empty or the single face item of its side: the item of a
/// side is among them exactly when its own run holds it.
proof fn lemma_six_sides(f1: Seq<MeshItem>, f2: Seq<MeshItem>, f3: Seq<MeshItem>, f4: Seq<MeshItem>,
    f5: Seq<MeshItem>, f6: Seq<MeshItem>, it: MeshItem)
    requires
        forall|i: int| 0 <= i < f1.len() ==> (#[trigger] f1[i]).dir == Some(FaceDir::FRONT),
        forall|i: int| 0 <= i < f2.len() ==> (#[trigger] f2[i]).dir == Some(FaceDir::RIGHT),
        forall|i: int| 0 <= i < f3.len() ==> (#[trigger] f3[i]).dir == Some(FaceDir::BACK),
        forall|i: int| 0 <= i < f4.len() ==> (#[trigger] f4[i]).dir == Some(FaceDir::LEFT),
        forall|i: int| 0 <= i < f5.len() ==> (#[trigger] f5[i]).dir == Some(FaceDir::TOP),
        forall|i: int| 0 <= i < f6.len() ==> (#[trigger] f6[i]).dir == Some(FaceDir::BOTTOM),
    ensures
        (f1 + f2 + f3 + f4 + f5 + f6).contains(it) <==> match it.dir {
            Some(FaceDir::FRONT) => f1.contains(it),
            Some(FaceDir::RIGHT) => f2.contains(it),
            Some(FaceDir::BACK) => f3.contains(it),
            Some(FaceDir::LEFT) => f4.contains(it),
            Some(FaceDir::TOP) => f5.contains(it),
            Some(FaceDir::BOTTOM) => f6.contains(it),
            None => false,
        },
{
    lemma_contains_concat(f1, f2, it);
    lemma_contains_concat(f1 + f2, f3, it);
    lemma_contains_concat(f1 + f2 + f3, f4, it);
    lemma_contains_concat(f1 + f2 + f3 + f4, f5, it);
    lemma_contains_concat(f1 + f2 + f3 + f4 + f5, f6, it);
    if f1.contains(it) { let i = choose|i: int| 0 <= i < f1.len() && f1[i] == it; assert(f1[i].dir == Some(FaceDir::FRONT)); }
    if f2.contains(it) { let i = choose|i: int| 0 <= i < f2.len() && f2[i] == it; assert(f2[i].dir == Some(FaceDir::RIGHT)); }
    if f3.contains(it) { let i = choose|i: int| 0 <= i < f3.len() && f3[i] == it; assert(f3[i].dir == Some(FaceDir::BACK)); }
    if f4.contains(it) { let i = choose|i: int| 0 <= i < f4.len() && f4[i] == it; assert(f4[i].dir == Some(FaceDir::LEFT)); }
    if f5.contains(it) { let i = choose|i: int| 0 <= i < f5.len() && f5[i] == it; assert(f5[i].dir == Some(FaceDir::TOP)); }
    if f6.contains(it) { let i = choose|i: int| 0 <= i < f6.len() && f6[i] == it; assert(f6[i].dir == Some(FaceDir::BOTTOM)); }
}

impl<'b> ChunkGeneratorMF<'b> {
    proof fn lemma_inner_face_side(&self, v: Seq<BlockCullType>, pos: (i32, i32, i32), x: int, y: int, z: int,
        d: FaceDir, m: TextureMapper<'b>, fluid: bool)
        ensures
            forall|i: int| 0 <= i < self.inner_face(v, pos, x, y, z, d, m, fluid).len()
                ==> (#[trigger] self.inner_face(v, pos, x, y, z, d, m, fluid)[i]).dir == Some(d),
            self.inner_face(v, pos, x, y, z, d, m, fluid).contains(face_item(pos, x, y, z, d, self.face_txtr(m, d), fluid))
                <==> self.inner_face(v, pos, x, y, z, d, m, fluid).len() > 0,
    {
        let f = self.inner_face(v, pos, x, y, z, d, m, fluid);
        if f.len() > 0 {
            assert(f[0] == face_item(pos, x, y, z, d, self.face_txtr(m, d), fluid));
        }
    }

    /// The faces a cube (or fluid) voxel shows inside its chunk: its face looking to `d` is
    /// among the chunk mesh's items exactly when the voxel next to it on that side lies in
    /// the chunk and lets the face show. A solid's face shows next to anything but a solid
    /// (so next to water too); a fluid's face shows next to anything but a solid or a fluid.
    pub proof fn lemma_inner_faces_open(&self, v: Seq<BlockCullType>, pos: (i32, i32, i32), x: int, y: int, z: int,
        t: TransparencyType)
        requires
            self.hf_input_ok(v, pos),
            in_chunk(self.chunk_size as int, x, y, z),
            spec_drawn_block(v[voxel_index(self.chunk_size as int, x, y, z)]) is Some,
        ensures
            ({
                let n = self.chunk_size as int;
                let data = self.block_ind@[spec_drawn_block(v[voxel_index(n, x, y, z)])->Some_0.0 as int];
                forall|d: FaceDir| {
                    &&& (data.transparency == t && data.mesh == MeshType::Cube) ==>
                        (self.cell_items(v, pos, x, y, z, t).contains(#[trigger] face_item(pos, x, y, z, d,
                            self.face_txtr(data.texture_id, d), false))
                        <==> in_chunk(n, x + dir_offset(d).0, y + dir_offset(d).1, z + dir_offset(d).2)
                            && !solid_voxel(v[voxel_index(n, x + dir_offset(d).0, y + dir_offset(d).1, z + dir_offset(d).2)]))
                    &&& (data.transparency == t && data.mesh == MeshType::Fluid) ==>
                        (self.cell_items(v, pos, x, y, z, t).contains(face_item(pos, x, y, z, d,
                            self.face_txtr(data.texture_id, d), true))
                        <==> in_chunk(n, x + dir_offset(d).0, y + dir_offset(d).1, z + dir_offset(d).2)
                            && !wet_or_solid_voxel(v[voxel_index(n, x + dir_offset(d).0, y + dir_offset(d).1, z + dir_offset(d).2)]))
                }
            }),
    {
        let n = self.chunk_size as int;
        let b = spec_drawn_block(v[voxel_index(n, x, y, z)])->Some_0;
        let data = self.block_ind@[b.0 as int];
        let m = data.texture_id;
        assert forall|d: FaceDir| {
            &&& (data.transparency == t && data.mesh == MeshType::Cube) ==>
                (self.cell_items(v, pos, x, y, z, t).contains(#[trigger] face_item(pos, x, y, z, d,
                    self.face_txtr(m, d), false))
                <==> in_chunk(n, x + dir_offset(d).0, y + dir_offset(d).1, z + dir_offset(d).2)
                    && !solid_voxel(v[voxel_index(n, x + dir_offset(d).0, y + dir_offset(d).1, z + dir_offset(d).2)]))
            &&& (data.transparency == t && data.mesh == MeshType::Fluid) ==>
                (self.cell_items(v, pos, x, y, z, t).contains(face_item(pos, x, y, z, d,
                    self.face_txtr(m, d), true))
                <==> in_chunk(n, x + dir_offset(d).0, y + dir_offset(d).1, z + dir_offset(d).2)
                    && !wet_or_solid_voxel(v[voxel_index(n, x + dir_offset(d).0, y + dir_offset(d).1, z + dir_offset(d).2)]))
        } by {
            let fl = data.mesh == MeshType::Fluid;
            self.lemma_inner_face_side(v, pos, x, y, z, FaceDir::FRONT, m, fl);
            self.lemma_inner_face_side(v, pos, x, y, z, FaceDir::RIGHT, m, fl);
            self.lemma_inner_face_side(v, pos, x, y, z, FaceDir::BACK, m, fl);
            self.lemma_inner_face_side(v, pos, x, y, z, FaceDir::LEFT, m, fl);
            self.lemma_inner_face_side(v, pos, x, y, z, FaceDir::TOP, m, fl);
            self.lemma_inner_face_side(v, pos, x, y, z, FaceDir::BOTTOM, m, fl);
            let it = face_item(pos, x, y, z, d, self.face_txtr(m, d), fl);
            lemma_six_sides(
                self.inner_face(v, pos, x, y, z, FaceDir::FRONT, m, fl),
                self.inner_face(v, pos, x, y, z, FaceDir::RIGHT, m, fl),
                self.inner_face(v, pos, x, y, z, FaceDir::BACK, m, fl),
                self.inner_face(v, pos, x, y, z, FaceDir::LEFT, m, fl),
                self.inner_face(v, pos, x, y, z, FaceDir::TOP, m, fl),
                self.inner_face(v, pos, x, y, z, FaceDir::BOTTOM, m, fl),
                it,
            );
        }
    }
}

impl<'b> ChunkGeneratorMF<'b> {
    proof fn lemma_border_face_side(&self, chunks: Seq<ChunkHF>, c: int, x: int, y: int, z: int, d: FaceDir,
        m: TextureMapper<'b>)
        requires
            1 <= self.chunk_size,
            in_chunk(self.chunk_size as int, x, y, z),
        ensures
            forall|i: int| 0 <= i < self.border_face(chunks, c, x, y, z, d, m).len()
                ==> (#[trigger] self.border_face(chunks, c, x, y, z, d, m)[i]).dir == Some(d),
            self.border_face(chunks, c, x, y, z, d, m).contains(
                face_item(corner_of(chunks[c].pos), x, y, z, d, self.face_txtr(m, d), false))
                <==> ({
                    let n = self.chunk_size as int;
                    let o = dir_offset(d);
                    &&& !in_chunk(n, x + o.0, y + o.1, z + o.2)
                    &&& adjacent(chunks[c].adjacency, d) is Some
                    &&& !solid_voxel(hf_voxels_at(chunks, adjacent(chunks[c].adjacency, d)->Some_0)[
                        voxel_index(n, x + o.0 - n * o.0, y + o.1 - n * o.1, z + o.2 - n * o.2)])
                }),
    {
        let n = self.chunk_size as int;
        let o = dir_offset(d);
        let f = self.border_face(chunks, c, x, y, z, d, m);
        if f.len() > 0 {
            assert(f[0] == face_item(corner_of(chunks[c].pos), x, y, z, d, self.face_txtr(m, d), false));
        }
        if !in_chunk(n, x + o.0, y + o.1, z + o.2) {
            match d {
                FaceDir::TOP => { assert(y == n - 1); },
                FaceDir::BOTTOM => { assert(y == 0); },
                FaceDir::LEFT => { assert(x == 0); },
                FaceDir::RIGHT => { assert(x == n - 1); },
                FaceDir::FRONT => { assert(z == n - 1); },
                FaceDir::BACK => { assert(z == 0); },
            }
            assert(wrap(x + o.0, n) == x + o.0 - n * o.0);
            assert(wrap(y + o.1, n) == y + o.1 - n * o.1);
            assert(wrap(z + o.2, n) == z + o.2 - n * o.2);
        }
    }

    /// The faces a cube voxel shows on its chunk's border: its face looking to `d` is among
    /// the border faces the aggregation adds exactly when the step to `d` leaves the chunk, a
    /// chunk is linked on that side, and the voxel of the linked chunk that touches the face
    /// (the step's target, carried one chunk size back along the stepped axis, so on the
    /// linked chunk's near or far layer) is no solid.
    pub proof fn lemma_border_faces_open(&self, chunks: Seq<ChunkHF>, c: int, x: int, y: int, z: int,
        t: TransparencyType)
        requires
            0 <= c < chunks.len(),
            1 <= self.chunk_size,
            in_chunk(self.chunk_size as int, x, y, z),
            spec_drawn_block(chunks[c].voxels@[voxel_index(self.chunk_size as int, x, y, z)]) is Some,
        ensures
            ({
                let n = self.chunk_size as int;
                let data = self.block_ind@[spec_drawn_block(chunks[c].voxels@[voxel_index(n, x, y, z)])->Some_0.0 as int];
                forall|d: FaceDir| (data.transparency == t && data.mesh == MeshType::Cube) ==>
                    (self.border_cell(chunks, c, x, y, z, t).contains(#[trigger] face_item(corner_of(chunks[c].pos),
                        x, y, z, d, self.face_txtr(data.texture_id, d), false))
                    <==> {
                        &&& !in_chunk(n, x + dir_offset(d).0, y + dir_offset(d).1, z + dir_offset(d).2)
                        &&& adjacent(chunks[c].adjacency, d) is Some
                        &&& !solid_voxel(hf_voxels_at(chunks, adjacent(chunks[c].adjacency, d)->Some_0)[
                            voxel_index(n, x + dir_offset(d).0 - n * dir_offset(d).0, y + dir_offset(d).1 - n * dir_offset(d).1,
                                z + dir_offset(d).2 - n * dir_offset(d).2)])
                    })
            }),
    {
        let n = self.chunk_size as int;
        let b = spec_drawn_block(chunks[c].voxels@[voxel_index(n, x, y, z)])->Some_0;
        let data = self.block_ind@[b.0 as int];
        let m = data.texture_id;
        assert forall|d: FaceDir| (data.transparency == t && data.mesh == MeshType::Cube) implies
            (self.border_cell(chunks, c, x, y, z, t).contains(#[trigger] face_item(corner_of(chunks[c].pos),
                x, y, z, d, self.face_txtr(m, d), false))
            <==> {
                &&& !in_chunk(n, x + dir_offset(d).0, y + dir_offset(d).1, z + dir_offset(d).2)
                &&& adjacent(chunks[c].adjacency, d) is Some
                &&& !solid_voxel(hf_voxels_at(chunks, adjacent(chunks[c].adjacency, d)->Some_0)[
                    voxel_index(n, x + dir_offset(d).0 - n * dir_offset(d).0, y + dir_offset(d).1 - n * dir_offset(d).1,
                        z + dir_offset(d).2 - n * dir_offset(d).2)])
            }) by {
            self.lemma_border_face_side(chunks, c, x, y, z, FaceDir::FRONT, m);
            self.lemma_border_face_side(chunks, c, x, y, z, FaceDir::RIGHT, m);
            self.lemma_border_face_side(chunks, c, x, y, z, FaceDir::BACK, m);
            self.lemma_border_face_side(chunks, c, x, y, z, FaceDir::LEFT, m);
            self.lemma_border_face_side(chunks, c, x, y, z, FaceDir::TOP, m);
            self.lemma_border_face_side(chunks, c, x, y, z, FaceDir::BOTTOM, m);
            let it = face_item(corner_of(chunks[c].pos), x, y, z, d, self.face_txtr(m, d), false);
            lemma_six_sides(
                self.border_face(chunks, c, x, y, z, FaceDir::FRONT, m),
                self.border_face(chunks, c, x, y, z, FaceDir::RIGHT, m),
                self.border_face(chunks, c, x, y, z, FaceDir::BACK, m),
                self.border_face(chunks, c, x, y, z, FaceDir::LEFT, m),
                self.border_face(chunks, c, x, y, z, FaceDir::TOP, m),
                self.border_face(chunks, c, x, y, z, FaceDir::BOTTOM, m),
                it,
            );
        }
    }
}

} // verus!
