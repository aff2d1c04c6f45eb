//! The meshes of a chunk's sparse features: plants standing on the surface, and the
//! surface of fluid columns.
use vstd::prelude::*;
use crate::block::{FaceDir, spec_block_obscures, spec_drawn_block};
use crate::mesh_util::{ChunkGeneratorMF, ChunkVertex, xcross_indices, xcross_vertices};
use crate::mesh_fill::{
    FaceList, PlacedFace, MAX_FACES, clamp_int, fill_block, fill_height, fill_low, grid_index, height_max,
    lemma_grid_index, lemma_grid_index_injective, solid, xz_state, faces_mesh,
};
use crate::terrain_gen::{Floralness, TerrainColumns, spec_get_block};

verus! {

/// A plant placed in the world: its block and its texture id.
#[derive(Copy, Clone, Debug)]
pub struct PlacedPlant {
    pub loc: (i32, i32, i32),
    pub txtr: u32,
}

/// The vertices and indices of a list of plants, one after another: the `k`-th plant owns
/// the vertices `8k..8k+8`.
pub open spec fn plants_mesh(s: Seq<PlacedPlant>) -> (Seq<ChunkVertex>, Seq<u32>)
    decreases s.len(),
{
    if s.len() == 0 {
        (Seq::empty(), Seq::empty())
    } else {
        let prev = plants_mesh(s.drop_last());
        let p = s.last();
        (prev.0 + xcross_vertices(p.loc, p.txtr), prev.1 + xcross_indices(8 * (s.len() - 1)))
    }
}

impl<'b> ChunkGeneratorMF<'b> {
    /// The plant of the local column (x, z): where the column grows one at a height `y`
    /// with `ofs.1 <= y < ofs.1 + chunk_size`, the block at the height `ofs.1 + y` is drawn
    /// as a cross standing at the local height `y` (raised to 0 if below it).
    pub open spec fn plant_at(&self, cols: TerrainColumns, ofs: (i32, i32, i32), origin: (i32, i32, i32),
        x: int, z: int) -> Seq<PlacedPlant>
    {
        let col = cols.col(ofs.0 + x, ofs.2 + z);
        let y = col.base_level as int;
        if col.floral != Floralness::Barren && ofs.1 <= y < ofs.1 + self.chunk_size {
            match spec_drawn_block(spec_get_block(ofs.1 + y, col)) {
                Some(b) => seq![PlacedPlant {
                    loc: ((origin.0 + x) as i32, (origin.1 + if y < 0 { 0 } else { y }) as i32, (-(origin.2 + z)) as i32),
                    txtr: self.face_txtr(self.block_ind@[b.0 as int].texture_id, FaceDir::TOP),
                }],
                None => Seq::empty(),
            }
        } else {
            Seq::empty()
        }
    }

    /// The plants of the columns (x, 0) to (x, z - 1).
    pub open spec fn plants_row(&self, cols: TerrainColumns, ofs: (i32, i32, i32), origin: (i32, i32, i32),
        x: int, z: int) -> Seq<PlacedPlant>
        decreases z,
    {
        if z <= 0 {
            Seq::empty()
        } else {
            self.plants_row(cols, ofs, origin, x, z - 1) + self.plant_at(cols, ofs, origin, x, z - 1)
        }
    }

    /// The plants of the rows 0 to x - 1.
    pub open spec fn plants_all(&self, cols: TerrainColumns, ofs: (i32, i32, i32), origin: (i32, i32, i32),
        x: int) -> Seq<PlacedPlant>
        decreases x,
    {
        if x <= 0 {
            Seq::empty()
        } else {
            self.plants_all(cols, ofs, origin, x - 1) + self.plants_row(cols, ofs, origin, x - 1, self.chunk_size as int)
        }
    }

    pub proof fn lemma_plants_row_len(&self, cols: TerrainColumns, ofs: (i32, i32, i32), origin: (i32, i32, i32), x: int, z: int)
        ensures
            self.plants_row(cols, ofs, origin, x, z).len() <= if z < 0 { 0 } else { z },
        decreases z,
    {
        if z > 0 {
            self.lemma_plants_row_len(cols, ofs, origin, x, z - 1);
        }
    }

    pub proof fn lemma_plants_all_len(&self, cols: TerrainColumns, ofs: (i32, i32, i32), origin: (i32, i32, i32), x: int)
        requires
            0 <= x,
        ensures
            self.plants_all(cols, ofs, origin, x).len() <= x * self.chunk_size,
        decreases x,
    {
        if x > 0 {
            self.lemma_plants_all_len(cols, ofs, origin, x - 1);
            self.lemma_plants_row_len(cols, ofs, origin, x - 1, self.chunk_size as int);
            assert((x - 1) * self.chunk_size + self.chunk_size == x * self.chunk_size) by (nonlinear_arith);
        }
    }

    /// The plants standing on the chunk's surface, row by row: a cross of the plant's block
    /// at each column that grows one inside the chunk's height.
    #[verifier::loop_isolation(false)]
    pub fn sparse_transparent_floral_mesh(&self, ofs: (i32, i32, i32), origin: (i32, i32, i32), cols: &TerrainColumns)
        -> (r: (Vec<ChunkVertex>, Vec<u32>))
        requires
            self.fill_input_ok(*cols, ofs, origin),
        ensures
            r.0@ == plants_mesh(self.plants_all(*cols, ofs, origin, self.chunk_size as int)).0,
            r.1@ == plants_mesh(self.plants_all(*cols, ofs, origin, self.chunk_size as int)).1,
    {
        let ghost c = *cols;
        let ghost n = self.chunk_size as int;
        let mut transparent_verts: Vec<ChunkVertex> = Vec::new();
        let mut transparent_inds: Vec<u32> = Vec::new();
        let mut transparent_faces: u32 = 0;
        let size = self.chunk_size();
        let mut x: u32 = 0;
        while x < size
            invariant
                x <= size,
                transparent_verts@ == plants_mesh(self.plants_all(c, ofs, origin, x as int)).0,
                transparent_inds@ == plants_mesh(self.plants_all(c, ofs, origin, x as int)).1,
                transparent_faces == 2 * self.plants_all(c, ofs, origin, x as int).len(),
            decreases size - x,
        {
            let mut z: u32 = 0;
            while z < size
                invariant
                    x < size,
                    z <= size,
                    transparent_verts@ == plants_mesh(self.plants_all(c, ofs, origin, x as int) + self.plants_row(c, ofs, origin, x as int, z as int)).0,
                    transparent_inds@ == plants_mesh(self.plants_all(c, ofs, origin, x as int) + self.plants_row(c, ofs, origin, x as int, z as int)).1,
                    transparent_faces == 2 * (self.plants_all(c, ofs, origin, x as int) + self.plants_row(c, ofs, origin, x as int, z as int)).len(),
                decreases size - z,
            {
                let ghost before = self.plants_all(c, ofs, origin, x as int) + self.plants_row(c, ofs, origin, x as int, z as int);
                let ghost here = self.plant_at(c, ofs, origin, x as int, z as int);
                proof {
                    self.lemma_plants_all_len(c, ofs, origin, x as int);
                    self.lemma_plants_row_len(c, ofs, origin, x as int, z as int);
                    assert((x as int) * n + (z as int) <= 512 * 512) by (nonlinear_arith)
                        requires
                            0 <= x < n <= 512,
                            0 <= z < n,
                    ;
                    assert(self.plants_row(c, ofs, origin, x as int, z + 1) == self.plants_row(c, ofs, origin, x as int, z as int) + here);
                    assert(self.plants_all(c, ofs, origin, x as int) + self.plants_row(c, ofs, origin, x as int, z + 1) =~= before + here);
                }
                let wx = ofs.0 + x as i32;
                let wz = ofs.2 + z as i32;
                if let Some(y) = cols.floral_existence_bound_test(wx, wz) {
                    if ofs.1 <= y && (y as i64) < ofs.1 as i64 + size as i64 {
                        let block = cols.get_block(wx, ofs.1 + y, wz);
                        if let Some(b) = block.drawn_block() {
                            let data = self.block_ind(b.0 as usize);
                            let ly: i32 = if y < 0 { 0 } else { y };
                            let loc = (origin.0 + x as i32, origin.1 + ly, -(origin.2 + z as i32));
                            let (mut xcross_verts, mut xcross_inds) = self.gen_xcross(
                                loc, transparent_faces * 4, data.texture_id,
                            );
                            proof {
                                let p = PlacedPlant {
                                    loc,
                                    txtr: self.face_txtr(data.texture_id, FaceDir::TOP),
                                };
                                assert(here =~= seq![p]);
                                assert((before + here).drop_last() =~= before);
                                assert((before + here).last() == p);
                            }
                            transparent_verts.append(&mut xcross_verts);
                            transparent_inds.append(&mut xcross_inds);
                            transparent_faces = transparent_faces + 2;
                        } else {
                            assert(before + here =~= before);
                        }
                    } else {
                        assert(before + here =~= before);
                    }
                } else {
                    assert(before + here =~= before);
                }
                z = z + 1;
            }
            proof {
                assert(self.plants_all(c, ofs, origin, x + 1) == self.plants_all(c, ofs, origin, x as int) + self.plants_row(c, ofs, origin, x as int, n));
            }
            x = x + 1;
        }
        (transparent_verts, transparent_inds)
    }
}

/// One past the highest local height the fluid scan visits: one above the highest
/// surface, clamped to the chunk's height taken in world units.
pub open spec fn fluid_high(cols: TerrainColumns, ofs: (i32, i32, i32), e: int) -> int {
    clamp_int(clamp_int(height_max(cols, ofs, e, e * e) - ofs.1, 0, e) + 1, ofs.1 as int, ofs.1 + e) - ofs.1
}

/// Where the fluid scan of a column ends.
pub open spec fn fluid_end(cols: TerrainColumns, ofs: (i32, i32, i32), e: int) -> int {
    let lo = fill_low(cols, ofs, e);
    let hi = fluid_high(cols, ofs, e);
    if hi < lo { lo } else { hi }
}

impl<'b> ChunkGeneratorMF<'b> {
    /// The face the fluid scan emits at the cell (x, y, z): where the column passes from
    /// solid into air (or starts in air), the TOP face of the voxel below; where it passes
    /// from air into solid, the BOTTOM face of the voxel.
    pub open spec fn fluid_cell_face(&self, cols: TerrainColumns, ofs: (i32, i32, i32), origin: (i32, i32, i32),
        x: int, y: int, z: int) -> Seq<PlacedFace>
    {
        let lo = fill_low(cols, ofs, self.chunk_size + 1);
        let s = solid(cols, ofs, x, y, z);
        if !s && (y == lo || solid(cols, ofs, x, y - 1, z)) {
            self.target_face(cols, ofs, origin, FaceDir::TOP, x, y - 1, z)
        } else if s && y > lo && !solid(cols, ofs, x, y - 1, z) {
            self.target_face(cols, ofs, origin, FaceDir::BOTTOM, x, y, z)
        } else {
            Seq::empty()
        }
    }

    pub open spec fn fluid_col(&self, cols: TerrainColumns, ofs: (i32, i32, i32), origin: (i32, i32, i32),
        x: int, z: int, y: int) -> Seq<PlacedFace>
        decreases y - fill_low(cols, ofs, self.chunk_size + 1),
    {
        if y <= fill_low(cols, ofs, self.chunk_size + 1) {
            Seq::empty()
        } else {
            self.fluid_col(cols, ofs, origin, x, z, y - 1) + self.fluid_cell_face(cols, ofs, origin, x, y - 1, z)
        }
    }

    pub open spec fn fluid_row(&self, cols: TerrainColumns, ofs: (i32, i32, i32), origin: (i32, i32, i32),
        x: int, z: int) -> Seq<PlacedFace>
        decreases z,
    {
        if z <= 0 {
            Seq::empty()
        } else {
            self.fluid_row(cols, ofs, origin, x, z - 1)
                + self.fluid_col(cols, ofs, origin, x, z - 1, fluid_end(cols, ofs, self.chunk_size + 1))
        }
    }

    pub open spec fn fluid_all(&self, cols: TerrainColumns, ofs: (i32, i32, i32), origin: (i32, i32, i32),
        x: int) -> Seq<PlacedFace>
        decreases x,
    {
        if x <= 0 {
            Seq::empty()
        } else {
            self.fluid_all(cols, ofs, origin, x - 1) + self.fluid_row(cols, ofs, origin, x - 1, self.chunk_size + 1)
        }
    }

    pub open spec fn fluid_before(&self, cols: TerrainColumns, ofs: (i32, i32, i32), origin: (i32, i32, i32),
        x: int, z: int, y: int) -> Seq<PlacedFace>
    {
        self.fluid_all(cols, ofs, origin, x) + self.fluid_row(cols, ofs, origin, x, z) + self.fluid_col(cols, ofs, origin, x, z, y)
    }

    pub proof fn lemma_fluid_col_len(&self, cols: TerrainColumns, ofs: (i32, i32, i32), origin: (i32, i32, i32),
        x: int, z: int, y: int)
        ensures
            self.fluid_col(cols, ofs, origin, x, z, y).len()
                <= if y - fill_low(cols, ofs, self.chunk_size + 1) < 0 { 0 } else { y - fill_low(cols, ofs, self.chunk_size + 1) },
        decreases y - fill_low(cols, ofs, self.chunk_size + 1),
    {
        if y > fill_low(cols, ofs, self.chunk_size + 1) {
            self.lemma_fluid_col_len(cols, ofs, origin, x, z, y - 1);
            self.lemma_target_face_len(cols, ofs, origin, FaceDir::TOP, x, y - 2, z);
            self.lemma_target_face_len(cols, ofs, origin, FaceDir::BOTTOM, x, y - 1, z);
        }
    }

    pub proof fn lemma_fluid_row_len(&self, cols: TerrainColumns, ofs: (i32, i32, i32), origin: (i32, i32, i32),
        x: int, z: int)
        requires
            self.wf(),
            z >= 0,
        ensures
            self.fluid_row(cols, ofs, origin, x, z).len() <= z * (self.chunk_size + 1),
        decreases z,
    {
        if z > 0 {
            let e = self.chunk_size + 1;
            self.lemma_fluid_row_len(cols, ofs, origin, x, z - 1);
            self.lemma_fluid_col_len(cols, ofs, origin, x, z - 1, fluid_end(cols, ofs, e));
            self.lemma_bounds(cols, ofs);
            assert((z - 1) * e + e == z * e) by (nonlinear_arith);
        }
    }

    pub proof fn lemma_fluid_all_len(&self, cols: TerrainColumns, ofs: (i32, i32, i32), origin: (i32, i32, i32), x: int)
        requires
            self.wf(),
            x >= 0,
        ensures
            self.fluid_all(cols, ofs, origin, x).len() <= x * (self.chunk_size + 1) * (self.chunk_size + 1),
        decreases x,
    {
        if x > 0 {
            let e = self.chunk_size + 1;
            self.lemma_fluid_all_len(cols, ofs, origin, x - 1);
            self.lemma_fluid_row_len(cols, ofs, origin, x - 1, e);
            assert((x - 1) * e * e + e * e == x * e * e) by (nonlinear_arith);
        }
    }

    pub proof fn lemma_fluid_before_len(&self, cols: TerrainColumns, ofs: (i32, i32, i32), origin: (i32, i32, i32),
        x: int, z: int, y: int)
        requires
            self.wf(),
            0 <= x <= self.chunk_size + 1,
            0 <= z <= self.chunk_size + 1,
            y <= fluid_end(cols, ofs, self.chunk_size + 1),
        ensures
            self.fluid_before(cols, ofs, origin, x, z, y).len() < MAX_FACES,
    {
        let e = self.chunk_size + 1;
        self.lemma_bounds(cols, ofs);
        self.lemma_fluid_all_len(cols, ofs, origin, x);
        self.lemma_fluid_row_len(cols, ofs, origin, x, z);
        self.lemma_fluid_col_len(cols, ofs, origin, x, z, y);
        assert(x * e * e + z * e + e <= (e + 1) * e * e + e * e + e) by (nonlinear_arith)
            requires
                0 <= x <= e,
                0 <= z <= e,
                e >= 0,
        ;
        assert((e + 1) * e * e + e * e + e <= 514 * 513 * 513 + 513 * 513 + 513) by (nonlinear_arith)
            requires
                0 <= e <= 513,
        ;
    }

    /// One step of the fluid scan at the cell (x, y, z).
    fn fluid_cell(&self, cols: &TerrainColumns, ofs: (i32, i32, i32), origin: (i32, i32, i32),
        e: u32, lo: u32, hi: u32, x: u32, z: u32, y: u32, open: bool,
        xz: &mut Vec<bool>, list: &mut FaceList)
        requires
            self.fill_input_ok(*cols, ofs, origin),
            e == self.chunk_size + 1,
            lo == fill_low(*cols, ofs, e as int),
            hi == fluid_high(*cols, ofs, e as int),
            lo <= y < hi <= e,
            x < e,
            z < e,
            open == !solid(*cols, ofs, x as int, y as int, z as int),
            self.fluid_before(*cols, ofs, origin, x as int, z as int, y as int).len() < MAX_FACES,
            xz_state(old(xz)@, *cols, ofs, e as int, lo as int, x as int, z as int, y as int),
            old(list).holds(self.fluid_before(*cols, ofs, origin, x as int, z as int, y as int)),
        ensures
            xz_state(final(xz)@, *cols, ofs, e as int, lo as int, x as int, z as int, y + 1),
            final(list).holds(self.fluid_before(*cols, ofs, origin, x as int, z as int, y + 1)),
    {
        let ghost c = *cols;
        let ghost (xi, yi, zi) = (x as int, y as int, z as int);
        let ghost ei = e as int;
        let ghost s = self.fluid_before(c, ofs, origin, xi, zi, yi);
        proof {
            lemma_grid_index(ei, xi, zi);
            assert(ei * ei <= 513 * 513) by (nonlinear_arith)
                requires
                    0 <= ei <= 513,
            ;
            let a = self.fluid_all(c, ofs, origin, xi);
            let r = self.fluid_row(c, ofs, origin, xi, zi);
            let cc = self.fluid_col(c, ofs, origin, xi, zi, yi);
            let f = self.fluid_cell_face(c, ofs, origin, xi, yi, zi);
            assert(self.fluid_col(c, ofs, origin, xi, zi, yi + 1) == cc + f);
            assert(a + r + (cc + f) =~= (a + r + cc) + f);
        }
        let xz_i = (x as usize) * (e as usize) + (z as usize);
        let xz_closed = xz[xz_i];
        if xz_closed && open {
            xz[xz_i] = false;
            self.emit_target(list, cols, ofs, origin, FaceDir::TOP, x as i32, y as i32 - 1, z as i32, Ghost(s));
        } else if !xz_closed && !open {
            xz[xz_i] = true;
            if y > 0 || !cols.get_block(ofs.0 + x as i32, ofs.1 - 1, ofs.2 + z as i32).check_block_obscured() {
                self.emit_target(list, cols, ofs, origin, FaceDir::BOTTOM, x as i32, y as i32, z as i32, Ghost(s));
            }
        } else {
            assert(s + Seq::<PlacedFace>::empty() =~= s);
        }
    }
}

impl<'b> ChunkGeneratorMF<'b> {
    /// The fluid face of the local column (x, z): the TOP face of the voxel right under the
    /// column's surface, or right under the lowest height scanned where the surface lies
    /// lower, if that height is scanned at all. A column passes from solid into air only
    /// once, and never from air into solid.
    pub open spec fn fluid_surface_col(&self, cols: TerrainColumns, ofs: (i32, i32, i32), origin: (i32, i32, i32),
        x: int, z: int) -> Seq<PlacedFace>
    {
        let e = self.chunk_size + 1;
        let lo = fill_low(cols, ofs, e);
        let h = fill_height(cols, ofs, x, z) - ofs.1;
        let m = if h < lo { lo } else { h };
        if m < fluid_end(cols, ofs, e) {
            self.target_face(cols, ofs, origin, FaceDir::TOP, x, m - 1, z)
        } else {
            Seq::empty()
        }
    }

    /// The fluid faces of the columns (x, 0) to (x, z - 1).
    pub open spec fn fluid_surface_row(&self, cols: TerrainColumns, ofs: (i32, i32, i32), origin: (i32, i32, i32),
        x: int, z: int) -> Seq<PlacedFace>
        decreases z,
    {
        if z <= 0 {
            Seq::empty()
        } else {
            self.fluid_surface_row(cols, ofs, origin, x, z - 1) + self.fluid_surface_col(cols, ofs, origin, x, z - 1)
        }
    }

    /// The fluid faces of the rows 0 to x - 1, each row's columns in order.
    pub open spec fn fluid_surface(&self, cols: TerrainColumns, ofs: (i32, i32, i32), origin: (i32, i32, i32),
        x: int) -> Seq<PlacedFace>
        decreases x,
    {
        if x <= 0 {
            Seq::empty()
        } else {
            self.fluid_surface(cols, ofs, origin, x - 1) + self.fluid_surface_row(cols, ofs, origin, x - 1, self.chunk_size + 1)
        }
    }

    proof fn lemma_fluid_col_surface(&self, cols: TerrainColumns, ofs: (i32, i32, i32), origin: (i32, i32, i32),
        x: int, z: int, y: int)
        ensures
            self.fluid_col(cols, ofs, origin, x, z, y) == ({
                let lo = fill_low(cols, ofs, self.chunk_size + 1);
                let h = fill_height(cols, ofs, x, z) - ofs.1;
                let m = if h < lo { lo } else { h };
                if m < y {
                    self.target_face(cols, ofs, origin, FaceDir::TOP, x, m - 1, z)
                } else {
                    Seq::<PlacedFace>::empty()
                }
            }),
        decreases y - fill_low(cols, ofs, self.chunk_size + 1),
    {
        let lo = fill_low(cols, ofs, self.chunk_size + 1);
        if y > lo {
            self.lemma_fluid_col_surface(cols, ofs, origin, x, z, y - 1);
            let h = fill_height(cols, ofs, x, z) - ofs.1;
            let m = if h < lo { lo } else { h };
            let prev = self.fluid_col(cols, ofs, origin, x, z, y - 1);
            let f = self.fluid_cell_face(cols, ofs, origin, x, y - 1, z);
            if y - 1 == m {
                assert(f == self.target_face(cols, ofs, origin, FaceDir::TOP, x, m - 1, z));
                assert(prev + f =~= f);
            } else {
                assert(f == Seq::<PlacedFace>::empty());
                assert(prev + f =~= prev);
            }
        }
    }

    proof fn lemma_fluid_row_surface(&self, cols: TerrainColumns, ofs: (i32, i32, i32), origin: (i32, i32, i32),
        x: int, z: int)
        ensures
            self.fluid_row(cols, ofs, origin, x, z) == self.fluid_surface_row(cols, ofs, origin, x, z),
        decreases z,
    {
        if z > 0 {
            self.lemma_fluid_row_surface(cols, ofs, origin, x, z - 1);
            self.lemma_fluid_col_surface(cols, ofs, origin, x, z - 1, fluid_end(cols, ofs, self.chunk_size + 1));
        }
    }

    /// The fluid scan emits, column after column, just the TOP face of the voxel under each
    /// column's surface (see `fluid_surface_col`).
    pub proof fn lemma_fluid_all_surface(&self, cols: TerrainColumns, ofs: (i32, i32, i32), origin: (i32, i32, i32),
        x: int)
        ensures
            self.fluid_all(cols, ofs, origin, x) == self.fluid_surface(cols, ofs, origin, x),
        decreases x,
    {
        if x > 0 {
            self.lemma_fluid_all_surface(cols, ofs, origin, x - 1);
            self.lemma_fluid_row_surface(cols, ofs, origin, x - 1, self.chunk_size + 1);
        }
    }
}

impl<'b> ChunkGeneratorMF<'b> {
    /// The fluid heights over the chunk's columns and one past them, and the band of
    /// heights the fluid scan visits.
    #[verifier::loop_isolation(false)]
    fn fluid_heights(&self, cols: &TerrainColumns, ofs: (i32, i32, i32), origin: (i32, i32, i32)) -> (r: (Vec<Option<i32>>, u32, u32))
        requires
            self.fill_input_ok(*cols, ofs, origin),
        ensures
            r.0@.len() == (self.chunk_size + 1) * (self.chunk_size + 1),
            forall|x2: int, z2: int| 0 <= x2 < self.chunk_size + 1 && 0 <= z2 < self.chunk_size + 1 ==>
                #[trigger] r.0@[grid_index(self.chunk_size + 1, x2, z2)] == Some(fill_height(*cols, ofs, x2, z2) as i32),
            r.1 == fill_low(*cols, ofs, self.chunk_size + 1),
            r.2 == fluid_high(*cols, ofs, self.chunk_size + 1),
            r.2 <= self.chunk_size + 1,
    {
        let ghost c = *cols;
        let n = self.chunk_size;
        let e = n + 1;
        let ghost ei = e as int;
        let eu = e as usize;
        proof {
            assert(ei * ei <= 513 * 513) by (nonlinear_arith)
                requires
                    0 <= ei <= 513,
            ;
        }
        let ee = eu * eu;
        let mut xz_max_height_bounds: Vec<Option<i32>> = vec![None; ee];
        let mut min_height_bound: u32 = e;
        let mut max_height_bound: u32 = 0;
        let mut x: u32 = 0;
        while x < e
            invariant
                x <= e,
                xz_max_height_bounds@.len() == ei * ei,
                forall|x2: int, z2: int| 0 <= x2 < x && 0 <= z2 < ei ==>
                    #[trigger] xz_max_height_bounds@[grid_index(ei, x2, z2)] == Some(fill_height(c, ofs, x2, z2) as i32),
                min_height_bound == if x == 0 { ei } else { clamp_int(crate::mesh_fill::height_min(c, ofs, ei, x * ei) - ofs.1, 0, ei) },
                max_height_bound == if x == 0 { 0 } else { clamp_int(height_max(c, ofs, ei, x * ei) - ofs.1, 0, ei) },
            decreases e - x,
        {
            let mut z: u32 = 0;
            while z < e
                invariant
                    x < e,
                    z <= e,
                    xz_max_height_bounds@.len() == ei * ei,
                    forall|x2: int, z2: int| 0 <= x2 < ei && 0 <= z2 < ei && (x2 < x || (x2 == x && z2 < z)) ==>
                        #[trigger] xz_max_height_bounds@[grid_index(ei, x2, z2)] == Some(fill_height(c, ofs, x2, z2) as i32),
                    min_height_bound == if x == 0 && z == 0 { ei } else {
                        clamp_int(crate::mesh_fill::height_min(c, ofs, ei, x * ei + z) - ofs.1, 0, ei)
                    },
                    max_height_bound == if x == 0 && z == 0 { 0 } else {
                        clamp_int(height_max(c, ofs, ei, x * ei + z) - ofs.1, 0, ei)
                    },
                decreases e - z,
            {
                let ghost k = x * ei + z;
                proof {
                    lemma_grid_index(ei, x as int, z as int);
                    assert(grid_index(ei, x as int, z as int) == k);
                }
                let ghost old_grid = xz_max_height_bounds@;
                let cell = (x as usize) * eu + (z as usize);
                if let Some(hb) = cols.fluid_height_existence_bound_test(ofs.0 + x as i32, ofs.2 + z as i32) {
                    xz_max_height_bounds[cell] = Some(hb);
                    if (hb as i64) > (max_height_bound as i64) + (ofs.1 as i64) {
                        max_height_bound = crate::mesh_fill::clamp_to(hb as i64 - ofs.1 as i64, e);
                    }
                    if (hb as i64) < (min_height_bound as i64) + (ofs.1 as i64) {
                        min_height_bound = crate::mesh_fill::clamp_to(hb as i64 - ofs.1 as i64, e);
                    }
                } else {
                    xz_max_height_bounds[cell] = None;
                }
                proof {
                    assert(k / ei == x && k % ei == z);
                    assert(crate::mesh_fill::height_min(c, ofs, ei, k + 1) == if k == 0 { fill_height(c, ofs, 0, 0) } else {
                        crate::mesh_fill::min_int(crate::mesh_fill::height_min(c, ofs, ei, k), fill_height(c, ofs, x as int, z as int))
                    });
                    assert(height_max(c, ofs, ei, k + 1) == if k == 0 { fill_height(c, ofs, 0, 0) } else {
                        crate::mesh_fill::max_int(height_max(c, ofs, ei, k), fill_height(c, ofs, x as int, z as int))
                    });
                    assert forall|x2: int, z2: int| 0 <= x2 < ei && 0 <= z2 < ei && (x2 < x || (x2 == x && z2 < z + 1)) implies
                        #[trigger] xz_max_height_bounds@[grid_index(ei, x2, z2)] == Some(fill_height(c, ofs, x2, z2) as i32) by {
                        lemma_grid_index(ei, x2, z2);
                        if !(x2 == x && z2 == z) {
                            if grid_index(ei, x2, z2) == k {
                                lemma_grid_index_injective(ei, x2, z2, x as int, z as int);
                            }
                            assert(xz_max_height_bounds@[grid_index(ei, x2, z2)] == old_grid[grid_index(ei, x2, z2)]);
                        }
                    }
                }
                z = z + 1;
            }
            proof {
                assert(x * ei + ei == (x + 1) * ei) by (nonlinear_arith);
            }
            x = x + 1;
        }
        // one above the highest surface, to close the faces on the top edge
        let m1 = max_height_bound as i64 + 1;
        let oy = ofs.1 as i64;
        let clamped = if m1 < oy { oy } else if m1 > oy + e as i64 { oy + e as i64 } else { m1 };
        max_height_bound = (clamped - oy) as u32;
        proof {
            assert(e * e == ei * ei);
        }
        (xz_max_height_bounds, min_height_bound, max_height_bound)
    }

    /// The surface of the chunk's fluid columns: a single scan up each column, emitting the
    /// TOP face where the column passes from solid into air and the BOTTOM face where it
    /// passes from air into solid. As a column passes into air once only, that is the TOP
    /// face of the voxel under each column's surface, column after column.
    #[verifier::loop_isolation(false)]
    pub fn temporary_fluid_mesher(&self, ofs: (i32, i32, i32), origin: (i32, i32, i32), cols: &TerrainColumns)
        -> (r: (Vec<ChunkVertex>, Vec<u32>))
        requires
            self.fill_input_ok(*cols, ofs, origin),
        ensures
            r.0@ == faces_mesh(self.fluid_all(*cols, ofs, origin, self.chunk_size + 1)).0,
            r.1@ == faces_mesh(self.fluid_all(*cols, ofs, origin, self.chunk_size + 1)).1,
            self.fluid_all(*cols, ofs, origin, self.chunk_size + 1) == self.fluid_surface(*cols, ofs, origin, self.chunk_size + 1),
    {
        let ghost c = *cols;
        let n = self.chunk_size;
        let e = n + 1;
        let ghost ei = e as int;
        let eu = e as usize;
        proof {
            assert(ei * ei <= 513 * 513) by (nonlinear_arith)
                requires
                    0 <= ei <= 513,
            ;
            self.lemma_bounds(c, ofs);
        }
        let ee = eu * eu;
        let (xz_max_height_bounds, lo, hi) = self.fluid_heights(cols, ofs, origin);
        let mut xz_grid: Vec<bool> = vec![false; ee];
        let mut translucent = FaceList::new();
        let mut x: u32 = 0;
        while x < e
            invariant
                x <= e,
                xz_grid@.len() == ei * ei,
                translucent.holds(self.fluid_all(c, ofs, origin, x as int)),
            decreases e - x,
        {
            let mut z: u32 = 0;
            while z < e
                invariant
                    x < e,
                    z <= e,
                    xz_grid@.len() == ei * ei,
                    translucent.holds(self.fluid_all(c, ofs, origin, x as int) + self.fluid_row(c, ofs, origin, x as int, z as int)),
                decreases e - z,
            {
                proof { lemma_grid_index(ei, x as int, z as int); }
                let cell = (x as usize) * eu + (z as usize);
                let ghost a = self.fluid_all(c, ofs, origin, x as int);
                let ghost r = self.fluid_row(c, ofs, origin, x as int, z as int);
                if let Some(height) = xz_max_height_bounds[cell] {
                    // for y == lo, the line along y starts closed
                    xz_grid[cell] = true;
                    proof {
                        assert(self.fluid_col(c, ofs, origin, x as int, z as int, lo as int) == Seq::<PlacedFace>::empty());
                        assert(a + r + Seq::<PlacedFace>::empty() =~= a + r);
                    }
                    let mut y: u32 = lo;
                    while y < hi
                        invariant
                            x < e,
                            z < e,
                            lo <= y,
                            y <= hi || y == lo,
                            height == fill_height(c, ofs, x as int, z as int),
                            xz_state(xz_grid@, c, ofs, ei, lo as int, x as int, z as int, y as int),
                            translucent.holds(self.fluid_before(c, ofs, origin, x as int, z as int, y as int)),
                        decreases hi - y,
                    {
                        proof { self.lemma_fluid_before_len(c, ofs, origin, x as int, z as int, y as int); }
                        let open = (ofs.1 as i64 + y as i64) >= height as i64;
                        self.fluid_cell(cols, ofs, origin, e, lo, hi, x, z, y, open, &mut xz_grid, &mut translucent);
                        y = y + 1;
                    }
                    xz_grid[cell] = !xz_grid[cell];
                    proof {
                        let end = fluid_end(c, ofs, ei);
                        assert(y == end);
                        let cc = self.fluid_col(c, ofs, origin, x as int, z as int, end);
                        assert(self.fluid_row(c, ofs, origin, x as int, z + 1) == r + cc);
                        assert(a + (r + cc) =~= a + r + cc);
                    }
                }
                z = z + 1;
            }
            proof {
                assert(self.fluid_all(c, ofs, origin, x + 1) == self.fluid_all(c, ofs, origin, x as int)
                    + self.fluid_row(c, ofs, origin, x as int, ei));
            }
            x = x + 1;
        }
        proof { self.lemma_fluid_all_surface(c, ofs, origin, ei); }
        (translucent.verts, translucent.inds)
    }
}

} // verus!
