//! The mesh fill list algorithm: the faces of a chunk's solid terrain, found by tracking,
//! along every line of voxels, where the line passes from solid into air and back.
use vstd::prelude::*;
use crate::block::{BlockCullType, FaceDir, spec_block_obscures, spec_drawn_block};
use crate::mesh_util::{
    ChunkGeneratorMF, ChunkVertex, MAX_CHUNK_SIZE, MAX_COORD, face_indices, face_vertices, in_chunk,
};
use crate::terrain_gen::{TerrainColumns, block_in_table};

verus! {

/// A face placed in the world: the location of the block it belongs to, as the face
/// builder takes it (the block's x and y, and its z negated), its direction and its texture id.
#[derive(Copy, Clone, Debug)]
pub struct PlacedFace {
    pub loc: (i32, i32, i32),
    pub dir: FaceDir,
    pub txtr: u32,
}

/// The vertices and indices of a list of faces, one after another: the `k`-th face owns
/// the vertices `4k..4k+4`.
pub open spec fn faces_mesh(s: Seq<PlacedFace>) -> (Seq<ChunkVertex>, Seq<u32>)
    decreases s.len(),
{
    if s.len() == 0 {
        (Seq::empty(), Seq::empty())
    } else {
        let prev = faces_mesh(s.drop_last());
        let f = s.last();
        (prev.0 + face_vertices(f.loc, f.dir, f.txtr, false), prev.1 + face_indices(f.dir, 4 * (s.len() - 1)))
    }
}

/// Vertices, indices and face count of a mesh under construction.
pub struct FaceList {
    pub verts: Vec<ChunkVertex>,
    pub inds: Vec<u32>,
    pub faces: u32,
}

impl FaceList {
    /// The list holds exactly the faces `s`.
    pub open spec fn holds(&self, s: Seq<PlacedFace>) -> bool {
        &&& self.verts@ == faces_mesh(s).0
        &&& self.inds@ == faces_mesh(s).1
        &&& self.faces == s.len()
    }

    pub fn new() -> (r: Self)
        ensures
            r.holds(Seq::empty()),
    {
        FaceList { verts: Vec::new(), inds: Vec::new(), faces: 0 }
    }
}

pub open spec fn clamp_int(v: int, lo: int, hi: int) -> int {
    if v < lo { lo } else if v > hi { hi } else { v }
}

pub open spec fn min_int(a: int, b: int) -> int {
    if a <= b { a } else { b }
}

pub open spec fn max_int(a: int, b: int) -> int {
    if a >= b { a } else { b }
}

/// The position of the cell (a, b) of an `e`-by-`e` grid.
pub open spec fn grid_index(e: int, a: int, b: int) -> int {
    a * e + b
}

pub proof fn lemma_grid_index(e: int, a: int, b: int)
    requires
        0 <= a < e,
        0 <= b < e,
    ensures
        0 <= grid_index(e, a, b) < e * e,
        grid_index(e, a, b) / e == a,
        grid_index(e, a, b) % e == b,
{
    assert(0 <= a * e + b < e * e) by (nonlinear_arith)
        requires
            0 <= a < e,
            0 <= b < e,
    ;
    vstd::arithmetic::div_mod::lemma_fundamental_div_mod_converse(a * e + b, e, a, b);
}

pub proof fn lemma_grid_index_injective(e: int, a1: int, b1: int, a2: int, b2: int)
    requires
        0 <= a1 < e,
        0 <= b1 < e,
        0 <= a2 < e,
        0 <= b2 < e,
        grid_index(e, a1, b1) == grid_index(e, a2, b2),
    ensures
        a1 == a2 && b1 == b2,
{
    lemma_grid_index(e, a1, b1);
    lemma_grid_index(e, a2, b2);
}

/// The surface level over the local column (x, z) of a chunk whose corner is at `ofs`.
pub open spec fn fill_height(cols: TerrainColumns, ofs: (i32, i32, i32), x: int, z: int) -> int {
    cols.height_at(ofs.0 + x, ofs.2 + z)
}

/// The voxel at the local point (x, y, z).
pub open spec fn fill_block(cols: TerrainColumns, ofs: (i32, i32, i32), x: int, y: int, z: int) -> BlockCullType {
    cols.block_at(ofs.0 + x, ofs.1 + y, ofs.2 + z)
}

/// The local point (x, y, z) lies under the surface.
pub open spec fn solid(cols: TerrainColumns, ofs: (i32, i32, i32), x: int, y: int, z: int) -> bool {
    ofs.1 + y < fill_height(cols, ofs, x, z)
}

/// The lowest surface level over the first `k` columns of the `e`-by-`e` grid.
pub open spec fn height_min(cols: TerrainColumns, ofs: (i32, i32, i32), e: int, k: int) -> int
    decreases k,
{
    if k <= 1 {
        fill_height(cols, ofs, 0, 0)
    } else {
        min_int(height_min(cols, ofs, e, k - 1), fill_height(cols, ofs, (k - 1) / e, (k - 1) % e))
    }
}

/// The highest surface level over the first `k` columns of the `e`-by-`e` grid.
pub open spec fn height_max(cols: TerrainColumns, ofs: (i32, i32, i32), e: int, k: int) -> int
    decreases k,
{
    if k <= 1 {
        fill_height(cols, ofs, 0, 0)
    } else {
        max_int(height_max(cols, ofs, e, k - 1), fill_height(cols, ofs, (k - 1) / e, (k - 1) % e))
    }
}

/// The lowest local height the scan visits: below it every column is solid.
pub open spec fn fill_low(cols: TerrainColumns, ofs: (i32, i32, i32), e: int) -> int {
    clamp_int(height_min(cols, ofs, e, e * e) - ofs.1, 0, e)
}

/// One past the highest local height the scan visits: one above the highest surface.
pub open spec fn fill_high(cols: TerrainColumns, ofs: (i32, i32, i32), e: int) -> int {
    min_int(clamp_int(height_max(cols, ofs, e, e * e) - ofs.1, 0, e) + 1, e)
}

impl<'b> ChunkGeneratorMF<'b> {
    /// The face looking to `dir` of the voxel at the local point `t`, if the voxel is in
    /// the chunk and draws a block.
    pub open spec fn target_face(&self, cols: TerrainColumns, ofs: (i32, i32, i32), origin: (i32, i32, i32),
        dir: FaceDir, tx: int, ty: int, tz: int) -> Seq<PlacedFace>
    {
        match spec_drawn_block(fill_block(cols, ofs, tx, ty, tz)) {
            Some(b) => if in_chunk(self.chunk_size as int, tx, ty, tz) {
                seq![PlacedFace {
                    loc: ((origin.0 + tx) as i32, (origin.1 + ty) as i32, (-(origin.2 + tz)) as i32),
                    dir,
                    txtr: self.face_txtr(self.block_ind@[b.0 as int].texture_id, dir),
                }]
            } else {
                Seq::empty()
            },
            None => Seq::empty(),
        }
    }

    /// The face looking to `dir` that the scan emits at the cell (x, y, z): where a line
    /// along z, x or y passes from solid into air, the last solid voxel's FRONT, RIGHT or
    /// TOP face; where it passes from air (or the chunk's near side, unless the voxel
    /// before it hides faces) into solid, the first solid voxel's BACK, LEFT or BOTTOM
    /// face. Along y the scan starts inside the solid at the lowest visited height.
    pub open spec fn cell_face(&self, cols: TerrainColumns, ofs: (i32, i32, i32), origin: (i32, i32, i32),
        dir: FaceDir, x: int, y: int, z: int) -> Seq<PlacedFace>
    {
        let lo = fill_low(cols, ofs, self.chunk_size + 1);
        let s = solid(cols, ofs, x, y, z);
        match dir {
            FaceDir::FRONT => if z >= 1 && solid(cols, ofs, x, y, z - 1) && !s {
                self.target_face(cols, ofs, origin, dir, x, y, z - 1)
            } else {
                Seq::empty()
            },
            FaceDir::BACK => if s && (z == 0 || !solid(cols, ofs, x, y, z - 1))
                && (z > 0 || !spec_block_obscures(fill_block(cols, ofs, x, y, -1))) {
                self.target_face(cols, ofs, origin, dir, x, y, z)
            } else {
                Seq::empty()
            },
            FaceDir::RIGHT => if x >= 1 && solid(cols, ofs, x - 1, y, z) && !s {
                self.target_face(cols, ofs, origin, dir, x - 1, y, z)
            } else {
                Seq::empty()
            },
            FaceDir::LEFT => if s && (x == 0 || !solid(cols, ofs, x - 1, y, z))
                && (x > 0 || !spec_block_obscures(fill_block(cols, ofs, -1, y, z))) {
                self.target_face(cols, ofs, origin, dir, x, y, z)
            } else {
                Seq::empty()
            },
            FaceDir::TOP => if !s && (y == lo || solid(cols, ofs, x, y - 1, z)) {
                self.target_face(cols, ofs, origin, dir, x, y - 1, z)
            } else {
                Seq::empty()
            },
            FaceDir::BOTTOM => if s && y > lo && !solid(cols, ofs, x, y - 1, z) {
                self.target_face(cols, ofs, origin, dir, x, y, z)
            } else {
                Seq::empty()
            },
        }
    }

    /// The faces the scan emits in the column (x, z) below height `y`.
    pub open spec fn faces_col(&self, cols: TerrainColumns, ofs: (i32, i32, i32), origin: (i32, i32, i32),
        dir: FaceDir, x: int, z: int, y: int) -> Seq<PlacedFace>
        decreases y - fill_low(cols, ofs, self.chunk_size + 1),
    {
        if y <= fill_low(cols, ofs, self.chunk_size + 1) {
            Seq::empty()
        } else {
            self.faces_col(cols, ofs, origin, dir, x, z, y - 1) + self.cell_face(cols, ofs, origin, dir, x, y - 1, z)
        }
    }

    /// The faces the scan emits in the columns (x, 0) to (x, z - 1).
    pub open spec fn faces_row(&self, cols: TerrainColumns, ofs: (i32, i32, i32), origin: (i32, i32, i32),
        dir: FaceDir, x: int, z: int) -> Seq<PlacedFace>
        decreases z,
    {
        if z <= 0 {
            Seq::empty()
        } else {
            self.faces_row(cols, ofs, origin, dir, x, z - 1)
                + self.faces_col(cols, ofs, origin, dir, x, z - 1, fill_high(cols, ofs, self.chunk_size + 1))
        }
    }

    /// The faces the scan emits in the rows 0 to x - 1.
    pub open spec fn faces_all(&self, cols: TerrainColumns, ofs: (i32, i32, i32), origin: (i32, i32, i32),
        dir: FaceDir, x: int) -> Seq<PlacedFace>
        decreases x,
    {
        if x <= 0 {
            Seq::empty()
        } else {
            self.faces_all(cols, ofs, origin, dir, x - 1)
                + self.faces_row(cols, ofs, origin, dir, x - 1, self.chunk_size + 1)
        }
    }

    /// The faces the scan emits before the cell (x, y, z).
    pub open spec fn faces_before(&self, cols: TerrainColumns, ofs: (i32, i32, i32), origin: (i32, i32, i32),
        dir: FaceDir, x: int, z: int, y: int) -> Seq<PlacedFace>
    {
        self.faces_all(cols, ofs, origin, dir, x) + self.faces_row(cols, ofs, origin, dir, x, z)
            + self.faces_col(cols, ofs, origin, dir, x, z, y)
    }

    /// The terrain the scan reads: the columns one past the chunk's near sides to one past
    /// its far sides.
    pub open spec fn fill_input_ok(&self, cols: TerrainColumns, ofs: (i32, i32, i32), origin: (i32, i32, i32)) -> bool {
        &&& self.wf()
        &&& cols.wf()
        &&& cols.covers(ofs.0 - 1, ofs.0 + self.chunk_size + 1, ofs.2 - 1, ofs.2 + self.chunk_size + 1)
        &&& -MAX_COORD <= ofs.0 <= MAX_COORD
        &&& -MAX_COORD <= ofs.1 <= MAX_COORD
        &&& -MAX_COORD <= ofs.2 <= MAX_COORD
        &&& -MAX_COORD <= origin.0 <= MAX_COORD
        &&& -MAX_COORD <= origin.1 <= MAX_COORD
        &&& -MAX_COORD <= origin.2 <= MAX_COORD
    }
}


/// The state of the lines along z, one per (x, y) cell, while the scan is at the cell
/// (x, y, z): closed where the last voxel visited on the line is solid.
pub open spec fn xy_state(xy: Seq<bool>, cols: TerrainColumns, ofs: (i32, i32, i32), e: int, lo: int, hi: int,
    x: int, z: int, y: int) -> bool
{
    &&& xy.len() == e * e
    &&& forall|y2: int| x < e && lo <= y2 < hi ==> #[trigger] xy[grid_index(e, x, y2)] == if y2 < y {
        solid(cols, ofs, x, y2, z)
    } else {
        z > 0 && solid(cols, ofs, x, y2, z - 1)
    }
    &&& forall|x2: int, y2: int| x < x2 < e && lo <= y2 < hi ==> !(#[trigger] xy[grid_index(e, x2, y2)])
}

/// The state of the lines along x, one per (y, z) cell, while the scan is at (x, y, z).
pub open spec fn yz_state(yz: Seq<bool>, cols: TerrainColumns, ofs: (i32, i32, i32), e: int, lo: int, hi: int,
    x: int, z: int, y: int) -> bool
{
    &&& yz.len() == e * e
    &&& forall|y2: int, z2: int| lo <= y2 < hi && 0 <= z2 < e ==> #[trigger] yz[grid_index(e, y2, z2)] == if z2 < z || (z2 == z && y2 < y) {
        solid(cols, ofs, x, y2, z2)
    } else {
        x > 0 && solid(cols, ofs, x - 1, y2, z2)
    }
}

/// The state of the line along y through the column (x, z) while the scan is at (x, y, z).
pub open spec fn xz_state(xz: Seq<bool>, cols: TerrainColumns, ofs: (i32, i32, i32), e: int, lo: int,
    x: int, z: int, y: int) -> bool
{
    &&& xz.len() == e * e
    &&& xz[grid_index(e, x, z)] == if y == lo { true } else { solid(cols, ofs, x, y - 1, z) }
}

pub(crate) fn clamp_to(v: i64, e: u32) -> (r: u32)
    ensures
        r == clamp_int(v as int, 0, e as int),
{
    if v < 0 {
        0
    } else if v > e as i64 {
        e
    } else {
        v as u32
    }
}

/// The bound on the faces of one list of a chunk's mesh.
pub const MAX_FACES: u32 = 0x1000_0000;

impl<'b> ChunkGeneratorMF<'b> {
    /// Adds to `list` the face looking to `dir` of the voxel at the local point `t`, if the
    /// voxel is in the chunk and draws a block.
    pub(crate) fn emit_target(&self, list: &mut FaceList, cols: &TerrainColumns, ofs: (i32, i32, i32), origin: (i32, i32, i32),
        dir: FaceDir, tx: i32, ty: i32, tz: i32, Ghost(s): Ghost<Seq<PlacedFace>>)
        requires
            self.fill_input_ok(*cols, ofs, origin),
            old(list).holds(s),
            s.len() < MAX_FACES,
            -1 <= tx <= self.chunk_size,
            -1 <= tz <= self.chunk_size,
            -1 <= ty <= self.chunk_size,
        ensures
            final(list).holds(s + self.target_face(*cols, ofs, origin, dir, tx as int, ty as int, tz as int)),
    {
        let block = cols.get_block(ofs.0 + tx, ofs.1 + ty, ofs.2 + tz);
        match block.drawn_block() {
            Some(b) => {
                if self.check_coord_within_chunk(tx, ty, tz) {
                    let data = self.block_ind(b.0 as usize);
                    let loc = (origin.0 + tx, origin.1 + ty, -(origin.2 + tz));
                    let (mut v, mut i) = self.gen_face(loc, list.faces * 4, dir, data.texture_id, false);
                    list.verts.append(&mut v);
                    list.inds.append(&mut i);
                    list.faces = list.faces + 1;
                    proof {
                        let f = PlacedFace { loc, dir, txtr: self.face_txtr(data.texture_id, dir) };
                        let t = self.target_face(*cols, ofs, origin, dir, tx as int, ty as int, tz as int);
                        assert(t =~= seq![f]);
                        assert((s + t).drop_last() =~= s);
                        assert((s + t).last() == f);
                    }
                } else {
                    assert(s + Seq::<PlacedFace>::empty() =~= s);
                }
            },
            None => {
                assert(s + Seq::<PlacedFace>::empty() =~= s);
            },
        }
    }
}

impl<'b> ChunkGeneratorMF<'b> {
    pub proof fn lemma_faces_before_step(&self, cols: TerrainColumns, ofs: (i32, i32, i32), origin: (i32, i32, i32),
        dir: FaceDir, x: int, z: int, y: int)
        requires
            y >= fill_low(cols, ofs, self.chunk_size + 1),
        ensures
            self.faces_before(cols, ofs, origin, dir, x, z, y + 1)
                == self.faces_before(cols, ofs, origin, dir, x, z, y) + self.cell_face(cols, ofs, origin, dir, x, y, z),
    {
        let a = self.faces_all(cols, ofs, origin, dir, x);
        let r = self.faces_row(cols, ofs, origin, dir, x, z);
        let c = self.faces_col(cols, ofs, origin, dir, x, z, y);
        let f = self.cell_face(cols, ofs, origin, dir, x, y, z);
        assert(self.faces_col(cols, ofs, origin, dir, x, z, y + 1) == c + f);
        assert(a + r + (c + f) =~= (a + r + c) + f);
    }

    /// The common conditions of one step of the scan at the cell (x, y, z).
    pub open spec fn cell_ok(&self, cols: TerrainColumns, ofs: (i32, i32, i32), origin: (i32, i32, i32),
        e: u32, lo: u32, hi: u32, x: u32, z: u32, y: u32, open: bool) -> bool
    {
        &&& self.fill_input_ok(cols, ofs, origin)
        &&& e == self.chunk_size + 1
        &&& lo == fill_low(cols, ofs, e as int)
        &&& hi == fill_high(cols, ofs, e as int)
        &&& lo <= y < hi <= e
        &&& x < e
        &&& z < e
        &&& open == !solid(cols, ofs, x as int, y as int, z as int)
        &&& forall|d: FaceDir| self.faces_before(cols, ofs, origin, d, x as int, z as int, y as int).len() < MAX_FACES
    }

    /// The step of the line along z through (x, y): FRONT and BACK faces.
    fn fill_xy(&self, cols: &TerrainColumns, ofs: (i32, i32, i32), origin: (i32, i32, i32),
        e: u32, lo: u32, hi: u32, x: u32, z: u32, y: u32, open: bool,
        xy: &mut Vec<bool>, front: &mut FaceList, back: &mut FaceList)
        requires
            self.cell_ok(*cols, ofs, origin, e, lo, hi, x, z, y, open),
            xy_state(old(xy)@, *cols, ofs, e as int, lo as int, hi as int, x as int, z as int, y as int),
            old(front).holds(self.faces_before(*cols, ofs, origin, FaceDir::FRONT, x as int, z as int, y as int)),
            old(back).holds(self.faces_before(*cols, ofs, origin, FaceDir::BACK, x as int, z as int, y as int)),
        ensures
            xy_state(final(xy)@, *cols, ofs, e as int, lo as int, hi as int, x as int, z as int, y + 1),
            final(front).holds(self.faces_before(*cols, ofs, origin, FaceDir::FRONT, x as int, z as int, y as int)
                + self.cell_face(*cols, ofs, origin, FaceDir::FRONT, x as int, y as int, z as int)),
            final(back).holds(self.faces_before(*cols, ofs, origin, FaceDir::BACK, x as int, z as int, y as int)
                + self.cell_face(*cols, ofs, origin, FaceDir::BACK, x as int, y as int, z as int)),
    {
        let ghost c = *cols;
        let ghost (xi, yi, zi) = (x as int, y as int, z as int);
        let ghost ei = e as int;
        let ghost sF = self.faces_before(c, ofs, origin, FaceDir::FRONT, xi, zi, yi);
        let ghost sK = self.faces_before(c, ofs, origin, FaceDir::BACK, xi, zi, yi);
        proof {
            assert(sF.len() < MAX_FACES);
            assert(sK.len() < MAX_FACES);
            lemma_grid_index(ei, xi, yi);
            assert(ei * ei <= 513 * 513) by (nonlinear_arith)
                requires
                    0 <= ei <= 513,
            ;
        }
        let xy_i = (x as usize) * (e as usize) + (y as usize);
        let ghost old_xy = xy@;
        let xy_closed = xy[xy_i];
        if xy_closed && open {
            xy[xy_i] = false;
            self.emit_target(front, cols, ofs, origin, FaceDir::FRONT, x as i32, y as i32, z as i32 - 1, Ghost(sF));
        } else if !xy_closed && !open {
            xy[xy_i] = true;
            if z > 0 || !cols.get_block(ofs.0 + x as i32, ofs.1 + y as i32, ofs.2 - 1).check_block_obscured() {
                self.emit_target(back, cols, ofs, origin, FaceDir::BACK, x as i32, y as i32, z as i32, Ghost(sK));
            }
        }
        proof {
            if !(xy_closed && open) {
                assert(sF + Seq::<PlacedFace>::empty() =~= sF);
            }
            if !(!xy_closed && !open && (z > 0 || !spec_block_obscures(fill_block(c, ofs, xi, yi, -1)))) {
                assert(sK + Seq::<PlacedFace>::empty() =~= sK);
            }
            assert forall|y2: int| xi < ei && lo <= y2 < hi implies #[trigger] xy@[grid_index(ei, xi, y2)] == if y2 < yi + 1 {
                solid(c, ofs, xi, y2, zi)
            } else {
                zi > 0 && solid(c, ofs, xi, y2, zi - 1)
            } by {
                lemma_grid_index(ei, xi, y2);
                if y2 != yi {
                    if grid_index(ei, xi, y2) == xy_i {
                        lemma_grid_index_injective(ei, xi, y2, xi, yi);
                    }
                    assert(xy@[grid_index(ei, xi, y2)] == old_xy[grid_index(ei, xi, y2)]);
                }
            }
            assert forall|x2: int, y2: int| xi < x2 < ei && lo <= y2 < hi implies !(#[trigger] xy@[grid_index(ei, x2, y2)]) by {
                lemma_grid_index(ei, x2, y2);
                if grid_index(ei, x2, y2) == xy_i {
                    lemma_grid_index_injective(ei, x2, y2, xi, yi);
                }
                assert(xy@[grid_index(ei, x2, y2)] == old_xy[grid_index(ei, x2, y2)]);
            }
        }
    }

    /// The step of the line along x through (y, z): RIGHT and LEFT faces.
    fn fill_yz(&self, cols: &TerrainColumns, ofs: (i32, i32, i32), origin: (i32, i32, i32),
        e: u32, lo: u32, hi: u32, x: u32, z: u32, y: u32, open: bool,
        yz: &mut Vec<bool>, right: &mut FaceList, left: &mut FaceList)
        requires
            self.cell_ok(*cols, ofs, origin, e, lo, hi, x, z, y, open),
            yz_state(old(yz)@, *cols, ofs, e as int, lo as int, hi as int, x as int, z as int, y as int),
            old(right).holds(self.faces_before(*cols, ofs, origin, FaceDir::RIGHT, x as int, z as int, y as int)),
            old(left).holds(self.faces_before(*cols, ofs, origin, FaceDir::LEFT, x as int, z as int, y as int)),
        ensures
            yz_state(final(yz)@, *cols, ofs, e as int, lo as int, hi as int, x as int, z as int, y + 1),
            final(right).holds(self.faces_before(*cols, ofs, origin, FaceDir::RIGHT, x as int, z as int, y as int)
                + self.cell_face(*cols, ofs, origin, FaceDir::RIGHT, x as int, y as int, z as int)),
            final(left).holds(self.faces_before(*cols, ofs, origin, FaceDir::LEFT, x as int, z as int, y as int)
                + self.cell_face(*cols, ofs, origin, FaceDir::LEFT, x as int, y as int, z as int)),
    {
        let ghost c = *cols;
        let ghost (xi, yi, zi) = (x as int, y as int, z as int);
        let ghost ei = e as int;
        let ghost sR = self.faces_before(c, ofs, origin, FaceDir::RIGHT, xi, zi, yi);
        let ghost sL = self.faces_before(c, ofs, origin, FaceDir::LEFT, xi, zi, yi);
        proof {
            assert(sR.len() < MAX_FACES);
            assert(sL.len() < MAX_FACES);
            lemma_grid_index(ei, yi, zi);
            assert(ei * ei <= 513 * 513) by (nonlinear_arith)
                requires
                    0 <= ei <= 513,
            ;
        }
        let yz_i = (y as usize) * (e as usize) + (z as usize);
        let ghost old_yz = yz@;
        let yz_closed = yz[yz_i];
        if yz_closed && open {
            yz[yz_i] = false;
            self.emit_target(right, cols, ofs, origin, FaceDir::RIGHT, x as i32 - 1, y as i32, z as i32, Ghost(sR));
        } else if !yz_closed && !open {
            yz[yz_i] = true;
            if x > 0 || !cols.get_block(ofs.0 - 1, ofs.1 + y as i32, ofs.2 + z as i32).check_block_obscured() {
                self.emit_target(left, cols, ofs, origin, FaceDir::LEFT, x as i32, y as i32, z as i32, Ghost(sL));
            }
        }
        proof {
            if !(yz_closed && open) {
                assert(sR + Seq::<PlacedFace>::empty() =~= sR);
            }
            if !(!yz_closed && !open && (x > 0 || !spec_block_obscures(fill_block(c, ofs, -1, yi, zi)))) {
                assert(sL + Seq::<PlacedFace>::empty() =~= sL);
            }
            assert forall|y2: int, z2: int| lo <= y2 < hi && 0 <= z2 < ei implies #[trigger] yz@[grid_index(ei, y2, z2)] == if z2 < zi || (z2 == zi && y2 < yi + 1) {
                solid(c, ofs, xi, y2, z2)
            } else {
                xi > 0 && solid(c, ofs, xi - 1, y2, z2)
            } by {
                lemma_grid_index(ei, y2, z2);
                if !(y2 == yi && z2 == zi) {
                    if grid_index(ei, y2, z2) == yz_i {
                        lemma_grid_index_injective(ei, y2, z2, yi, zi);
                    }
                    assert(yz@[grid_index(ei, y2, z2)] == old_yz[grid_index(ei, y2, z2)]);
                }
            }
        }
    }

    /// The step of the line along y through (x, z): TOP and BOTTOM faces.
    fn fill_xz(&self, cols: &TerrainColumns, ofs: (i32, i32, i32), origin: (i32, i32, i32),
        e: u32, lo: u32, hi: u32, x: u32, z: u32, y: u32, open: bool,
        xz: &mut Vec<bool>, top: &mut FaceList, bottom: &mut FaceList)
        requires
            self.cell_ok(*cols, ofs, origin, e, lo, hi, x, z, y, open),
            xz_state(old(xz)@, *cols, ofs, e as int, lo as int, x as int, z as int, y as int),
            old(top).holds(self.faces_before(*cols, ofs, origin, FaceDir::TOP, x as int, z as int, y as int)),
            old(bottom).holds(self.faces_before(*cols, ofs, origin, FaceDir::BOTTOM, x as int, z as int, y as int)),
        ensures
            xz_state(final(xz)@, *cols, ofs, e as int, lo as int, x as int, z as int, y + 1),
            final(top).holds(self.faces_before(*cols, ofs, origin, FaceDir::TOP, x as int, z as int, y as int)
                + self.cell_face(*cols, ofs, origin, FaceDir::TOP, x as int, y as int, z as int)),
            final(bottom).holds(self.faces_before(*cols, ofs, origin, FaceDir::BOTTOM, x as int, z as int, y as int)
                + self.cell_face(*cols, ofs, origin, FaceDir::BOTTOM, x as int, y as int, z as int)),
    {
        let ghost c = *cols;
        let ghost (xi, yi, zi) = (x as int, y as int, z as int);
        let ghost ei = e as int;
        let ghost sT = self.faces_before(c, ofs, origin, FaceDir::TOP, xi, zi, yi);
        let ghost sB = self.faces_before(c, ofs, origin, FaceDir::BOTTOM, xi, zi, yi);
        proof {
            assert(sT.len() < MAX_FACES);
            assert(sB.len() < MAX_FACES);
            lemma_grid_index(ei, xi, zi);
            assert(ei * ei <= 513 * 513) by (nonlinear_arith)
                requires
                    0 <= ei <= 513,
            ;
        }
        let xz_i = (x as usize) * (e as usize) + (z as usize);
        let xz_closed = xz[xz_i];
        if xz_closed && open {
            xz[xz_i] = false;
            self.emit_target(top, cols, ofs, origin, FaceDir::TOP, x as i32, y as i32 - 1, z as i32, Ghost(sT));
        } else if !xz_closed && !open {
            xz[xz_i] = true;
            if y > 0 || !cols.get_block(ofs.0 + x as i32, ofs.1 - 1, ofs.2 + z as i32).check_block_obscured() {
                self.emit_target(bottom, cols, ofs, origin, FaceDir::BOTTOM, x as i32, y as i32, z as i32, Ghost(sB));
            }
        }
        proof {
            if !(xz_closed && open) {
                assert(sT + Seq::<PlacedFace>::empty() =~= sT);
            }
            if !(!xz_closed && !open && (y > 0 || !spec_block_obscures(fill_block(c, ofs, xi, -1, zi)))) {
                assert(sB + Seq::<PlacedFace>::empty() =~= sB);
            }
        }
    }

    /// One step of the scan at the cell (x, y, z): updates the three lines through the
    /// cell and emits the faces where they pass between solid and air.
    fn fill_cell(&self, cols: &TerrainColumns, ofs: (i32, i32, i32), origin: (i32, i32, i32),
        e: u32, lo: u32, hi: u32, x: u32, z: u32, y: u32, height: i32,
        xy: &mut Vec<bool>, yz: &mut Vec<bool>, xz: &mut Vec<bool>,
        top: &mut FaceList, bottom: &mut FaceList, left: &mut FaceList,
        right: &mut FaceList, front: &mut FaceList, back: &mut FaceList)
        requires
            self.fill_input_ok(*cols, ofs, origin),
            e == self.chunk_size + 1,
            lo == fill_low(*cols, ofs, e as int),
            hi == fill_high(*cols, ofs, e as int),
            lo <= y < hi <= e,
            x < e,
            z < e,
            height == fill_height(*cols, ofs, x as int, z as int),
            xy_state(old(xy)@, *cols, ofs, e as int, lo as int, hi as int, x as int, z as int, y as int),
            yz_state(old(yz)@, *cols, ofs, e as int, lo as int, hi as int, x as int, z as int, y as int),
            xz_state(old(xz)@, *cols, ofs, e as int, lo as int, x as int, z as int, y as int),
            forall|d: FaceDir| self.faces_before(*cols, ofs, origin, d, x as int, z as int, y as int).len() < MAX_FACES,
            old(top).holds(self.faces_before(*cols, ofs, origin, FaceDir::TOP, x as int, z as int, y as int)),
            old(bottom).holds(self.faces_before(*cols, ofs, origin, FaceDir::BOTTOM, x as int, z as int, y as int)),
            old(left).holds(self.faces_before(*cols, ofs, origin, FaceDir::LEFT, x as int, z as int, y as int)),
            old(right).holds(self.faces_before(*cols, ofs, origin, FaceDir::RIGHT, x as int, z as int, y as int)),
            old(front).holds(self.faces_before(*cols, ofs, origin, FaceDir::FRONT, x as int, z as int, y as int)),
            old(back).holds(self.faces_before(*cols, ofs, origin, FaceDir::BACK, x as int, z as int, y as int)),
        ensures
            xy_state(final(xy)@, *cols, ofs, e as int, lo as int, hi as int, x as int, z as int, y + 1),
            yz_state(final(yz)@, *cols, ofs, e as int, lo as int, hi as int, x as int, z as int, y + 1),
            xz_state(final(xz)@, *cols, ofs, e as int, lo as int, x as int, z as int, y + 1),
            final(top).holds(self.faces_before(*cols, ofs, origin, FaceDir::TOP, x as int, z as int, y + 1)),
            final(bottom).holds(self.faces_before(*cols, ofs, origin, FaceDir::BOTTOM, x as int, z as int, y + 1)),
            final(left).holds(self.faces_before(*cols, ofs, origin, FaceDir::LEFT, x as int, z as int, y + 1)),
            final(right).holds(self.faces_before(*cols, ofs, origin, FaceDir::RIGHT, x as int, z as int, y + 1)),
            final(front).holds(self.faces_before(*cols, ofs, origin, FaceDir::FRONT, x as int, z as int, y + 1)),
            final(back).holds(self.faces_before(*cols, ofs, origin, FaceDir::BACK, x as int, z as int, y + 1)),
    {
        proof {
            let c = *cols;
            let (xi, yi, zi) = (x as int, y as int, z as int);
            self.lemma_faces_before_step(c, ofs, origin, FaceDir::TOP, xi, zi, yi);
            self.lemma_faces_before_step(c, ofs, origin, FaceDir::BOTTOM, xi, zi, yi);
            self.lemma_faces_before_step(c, ofs, origin, FaceDir::LEFT, xi, zi, yi);
            self.lemma_faces_before_step(c, ofs, origin, FaceDir::RIGHT, xi, zi, yi);
            self.lemma_faces_before_step(c, ofs, origin, FaceDir::FRONT, xi, zi, yi);
            self.lemma_faces_before_step(c, ofs, origin, FaceDir::BACK, xi, zi, yi);
        }
        let open = (ofs.1 as i64 + y as i64) >= height as i64;
        self.fill_xy(cols, ofs, origin, e, lo, hi, x, z, y, open, xy, front, back);
        self.fill_yz(cols, ofs, origin, e, lo, hi, x, z, y, open, yz, right, left);
        self.fill_xz(cols, ofs, origin, e, lo, hi, x, z, y, open, xz, top, bottom);
    }
}

pub proof fn lemma_height_min_le_max(cols: TerrainColumns, ofs: (i32, i32, i32), e: int, k: int)
    ensures
        height_min(cols, ofs, e, k) <= height_max(cols, ofs, e, k),
    decreases k,
{
    if k > 1 {
        lemma_height_min_le_max(cols, ofs, e, k - 1);
    }
}

impl<'b> ChunkGeneratorMF<'b> {
    /// The faces looking to `dir` of the chunk's solid terrain, in scan order.
    pub open spec fn fill_faces(&self, cols: TerrainColumns, ofs: (i32, i32, i32), origin: (i32, i32, i32),
        dir: FaceDir) -> Seq<PlacedFace>
    {
        self.faces_all(cols, ofs, origin, dir, self.chunk_size + 1)
    }

    pub proof fn lemma_bounds(&self, cols: TerrainColumns, ofs: (i32, i32, i32))
        requires
            self.wf(),
        ensures
            0 <= fill_low(cols, ofs, self.chunk_size + 1) <= fill_high(cols, ofs, self.chunk_size + 1)
                <= self.chunk_size + 1,
    {
        let e = self.chunk_size + 1;
        lemma_height_min_le_max(cols, ofs, e, e * e);
    }

    pub proof fn lemma_target_face_len(&self, cols: TerrainColumns, ofs: (i32, i32, i32), origin: (i32, i32, i32),
        dir: FaceDir, tx: int, ty: int, tz: int)
        ensures
            self.target_face(cols, ofs, origin, dir, tx, ty, tz).len() <= 1,
    {
    }

    pub proof fn lemma_cell_face_len(&self, cols: TerrainColumns, ofs: (i32, i32, i32), origin: (i32, i32, i32),
        dir: FaceDir, x: int, y: int, z: int)
        ensures
            self.cell_face(cols, ofs, origin, dir, x, y, z).len() <= 1,
    {
        self.lemma_target_face_len(cols, ofs, origin, dir, x, y, z);
        self.lemma_target_face_len(cols, ofs, origin, dir, x, y, z - 1);
        self.lemma_target_face_len(cols, ofs, origin, dir, x - 1, y, z);
        self.lemma_target_face_len(cols, ofs, origin, dir, x, y - 1, z);
    }

    pub proof fn lemma_col_len(&self, cols: TerrainColumns, ofs: (i32, i32, i32), origin: (i32, i32, i32),
        dir: FaceDir, x: int, z: int, y: int)
        ensures
            self.faces_col(cols, ofs, origin, dir, x, z, y).len()
                <= max_int(0, y - fill_low(cols, ofs, self.chunk_size + 1)),
        decreases y - fill_low(cols, ofs, self.chunk_size + 1),
    {
        if y > fill_low(cols, ofs, self.chunk_size + 1) {
            self.lemma_col_len(cols, ofs, origin, dir, x, z, y - 1);
            self.lemma_cell_face_len(cols, ofs, origin, dir, x, y - 1, z);
        }
    }

    pub proof fn lemma_row_len(&self, cols: TerrainColumns, ofs: (i32, i32, i32), origin: (i32, i32, i32),
        dir: FaceDir, x: int, z: int)
        requires
            self.wf(),
            z >= 0,
        ensures
            self.faces_row(cols, ofs, origin, dir, x, z).len() <= z * (self.chunk_size + 1),
        decreases z,
    {
        if z > 0 {
            self.lemma_row_len(cols, ofs, origin, dir, x, z - 1);
            self.lemma_col_len(cols, ofs, origin, dir, x, z - 1, fill_high(cols, ofs, self.chunk_size + 1));
            self.lemma_bounds(cols, ofs);
            let e = self.chunk_size + 1;
            assert((z - 1) * e + e == z * e) by (nonlinear_arith);
        }
    }

    pub proof fn lemma_all_len(&self, cols: TerrainColumns, ofs: (i32, i32, i32), origin: (i32, i32, i32),
        dir: FaceDir, x: int)
        requires
            self.wf(),
            x >= 0,
        ensures
            self.faces_all(cols, ofs, origin, dir, x).len() <= x * (self.chunk_size + 1) * (self.chunk_size + 1),
        decreases x,
    {
        if x > 0 {
            let e = self.chunk_size + 1;
            self.lemma_all_len(cols, ofs, origin, dir, x - 1);
            self.lemma_row_len(cols, ofs, origin, dir, x - 1, e);
            assert((x - 1) * e * e + e * e == x * e * e) by (nonlinear_arith);
        }
    }

    /// Before any cell of the chunk the scan has emitted fewer than `MAX_FACES` faces.
    pub proof fn lemma_faces_before_len(&self, cols: TerrainColumns, ofs: (i32, i32, i32), origin: (i32, i32, i32),
        x: int, z: int, y: int)
        requires
            self.wf(),
            0 <= x <= self.chunk_size + 1,
            0 <= z < self.chunk_size + 1 || (z == 0),
            y <= fill_high(cols, ofs, self.chunk_size + 1),
        ensures
            forall|d: FaceDir| #[trigger] self.faces_before(cols, ofs, origin, d, x, z, y).len() < MAX_FACES,
    {
        let e = self.chunk_size + 1;
        self.lemma_bounds(cols, ofs);
        assert forall|d: FaceDir| #[trigger] self.faces_before(cols, ofs, origin, d, x, z, y).len() < MAX_FACES by {
            self.lemma_all_len(cols, ofs, origin, d, x);
            self.lemma_row_len(cols, ofs, origin, d, x, z);
            self.lemma_col_len(cols, ofs, origin, d, x, z, y);
            assert(x * e * e + z * e + e <= (e + 1) * e * e + e * e + e) by (nonlinear_arith)
                requires
                    0 <= x <= e,
                    0 <= z <= e,
                    e >= 0,
            ;
            assert((e + 1) * e * e + e * e + e <= 514 * 513 * 513 + 513 * 513 + 513) by (nonlinear_arith)
                requires
                    0 <= e <= 513,
            ;
        }
    }
}

/// `n` line states, all open.
fn open_lines(n: usize) -> (r: Vec<bool>)
    ensures
        r@.len() == n,
        forall|i: int| 0 <= i < n ==> !(#[trigger] r@[i]),
{
    let mut r: Vec<bool> = Vec::new();
    let mut i: usize = 0;
    while i < n
        invariant
            i <= n,
            r@.len() == i,
            forall|j: int| 0 <= j < i ==> !(#[trigger] r@[j]),
        decreases n - i,
    {
        r.push(false);
        i = i + 1;
    }
    r
}

/// The part of a mesh that looks to `dir` holds exactly the faces `s`.
pub open spec fn part_holds(part: (Vec<ChunkVertex>, Vec<u32>, FaceDir), s: Seq<PlacedFace>, dir: FaceDir) -> bool {
    &&& part.0@ == faces_mesh(s).0
    &&& part.1@ == faces_mesh(s).1
    &&& part.2 == dir
}

impl<'b> ChunkGeneratorMF<'b> {
    /// The surface levels over the chunk's columns and one past them, and the band of
    /// heights the scan visits.
    #[verifier::loop_isolation(false)]
    fn column_heights(&self, cols: &TerrainColumns, ofs: (i32, i32, i32), origin: (i32, i32, i32)) -> (r: (Vec<i32>, u32, u32))
        requires
            self.fill_input_ok(*cols, ofs, origin),
        ensures
            r.0@.len() == (self.chunk_size + 1) * (self.chunk_size + 1),
            forall|x2: int, z2: int| 0 <= x2 < self.chunk_size + 1 && 0 <= z2 < self.chunk_size + 1 ==>
                #[trigger] r.0@[grid_index(self.chunk_size + 1, x2, z2)] == fill_height(*cols, ofs, x2, z2),
            r.1 == fill_low(*cols, ofs, self.chunk_size + 1),
            r.2 == fill_high(*cols, ofs, self.chunk_size + 1),
            0 <= r.1 <= r.2 <= self.chunk_size + 1,
    {
        let ghost c = *cols;
        let n = self.chunk_size;
        let e = n + 1;
        let ghost ei = e as int;
        let eu = e as usize;
        proof {
            assert(ei * ei <= 513 * 513) by (nonlinear_arith)
                requires
                    0 <= ei <= 513,
            ;
        }
        let ee = eu * eu;
        // height bounds of the columns, to skip the layers that are all solid or all air
        let mut xz_max_height_bounds: Vec<i32> = vec![0i32; ee];
        let mut min_height_bound: u32 = e;
        let mut max_height_bound: u32 = 0;
        let mut x: u32 = 0;
        while x < e
            invariant
                x <= e,
                xz_max_height_bounds@.len() == ei * ei,
                forall|x2: int, z2: int| 0 <= x2 < x && 0 <= z2 < ei ==>
                    #[trigger] xz_max_height_bounds@[grid_index(ei, x2, z2)] == fill_height(c, ofs, x2, z2),
                min_height_bound == if x == 0 { ei } else { clamp_int(height_min(c, ofs, ei, x * ei) - ofs.1, 0, ei) },
                max_height_bound == if x == 0 { 0 } else { clamp_int(height_max(c, ofs, ei, x * ei) - ofs.1, 0, ei) },
            decreases e - x,
        {
            let mut z: u32 = 0;
            while z < e
                invariant
                    x < e,
                    z <= e,
                    xz_max_height_bounds@.len() == ei * ei,
                    forall|x2: int, z2: int| 0 <= x2 < ei && 0 <= z2 < ei && (x2 < x || (x2 == x && z2 < z)) ==>
                        #[trigger] xz_max_height_bounds@[grid_index(ei, x2, z2)] == fill_height(c, ofs, x2, z2),
                    min_height_bound == if x == 0 && z == 0 { ei } else {
                        clamp_int(height_min(c, ofs, ei, x * ei + z) - ofs.1, 0, ei)
                    },
                    max_height_bound == if x == 0 && z == 0 { 0 } else {
                        clamp_int(height_max(c, ofs, ei, x * ei + z) - ofs.1, 0, ei)
                    },
                decreases e - z,
            {
                let ghost k = x * ei + z;
                proof {
                    lemma_grid_index(ei, x as int, z as int);
                    assert(grid_index(ei, x as int, z as int) == k);
                }
                let hb = cols.opaque_block_height_bound_test(ofs.0 + x as i32, ofs.2 + z as i32);
                let ghost old_grid = xz_max_height_bounds@;
                xz_max_height_bounds[(x as usize) * eu + (z as usize)] = hb;
                if (hb as i64) > (max_height_bound as i64) + (ofs.1 as i64) {
                    max_height_bound = clamp_to(hb as i64 - ofs.1 as i64, e);
                }
                if (hb as i64) < (min_height_bound as i64) + (ofs.1 as i64) {
                    min_height_bound = clamp_to(hb as i64 - ofs.1 as i64, e);
                }
                proof {
                    assert(k / ei == x && k % ei == z);
                    assert(height_min(c, ofs, ei, k + 1) == if k == 0 { fill_height(c, ofs, 0, 0) } else {
                        min_int(height_min(c, ofs, ei, k), fill_height(c, ofs, x as int, z as int))
                    });
                    assert(height_max(c, ofs, ei, k + 1) == if k == 0 { fill_height(c, ofs, 0, 0) } else {
                        max_int(height_max(c, ofs, ei, k), fill_height(c, ofs, x as int, z as int))
                    });
                    assert forall|x2: int, z2: int| 0 <= x2 < ei && 0 <= z2 < ei && (x2 < x || (x2 == x && z2 < z + 1)) implies
                        #[trigger] xz_max_height_bounds@[grid_index(ei, x2, z2)] == fill_height(c, ofs, x2, z2) by {
                        lemma_grid_index(ei, x2, z2);
                        if !(x2 == x && z2 == z) {
                            if grid_index(ei, x2, z2) == k {
                                lemma_grid_index_injective(ei, x2, z2, x as int, z as int);
                            }
                            assert(xz_max_height_bounds@[grid_index(ei, x2, z2)] == old_grid[grid_index(ei, x2, z2)]);
                        }
                    }
                }
                z = z + 1;
            }
            proof {
                assert(x * ei + ei == (x + 1) * ei) by (nonlinear_arith);
            }
            x = x + 1;
        }
        // one above the highest surface, to close the faces on the top edge
        max_height_bound = if max_height_bound + 1 > e { e } else { max_height_bound + 1 };
        let lo = min_height_bound;
        let hi = max_height_bound;
        proof {
            assert(e * e == ei * ei);
            assert(lo == fill_low(c, ofs, ei));
            assert(hi == fill_high(c, ofs, ei));
            self.lemma_bounds(c, ofs);
        }

        (xz_max_height_bounds, lo, hi)
    }

    /// The scan of the column (x, z).
    #[verifier::loop_isolation(false)]
    #[verifier::spinoff_prover]
    #[verifier::rlimit(40)]
    fn scan_column(&self, cols: &TerrainColumns, ofs: (i32, i32, i32), origin: (i32, i32, i32),
        e: u32, lo: u32, hi: u32, x: u32, z: u32, heights: &Vec<i32>,
        xy: &mut Vec<bool>, yz: &mut Vec<bool>, xz: &mut Vec<bool>,
        top: &mut FaceList, bottom: &mut FaceList, left: &mut FaceList,
        right: &mut FaceList, front: &mut FaceList, back: &mut FaceList)
        requires
            self.fill_input_ok(*cols, ofs, origin),
            e == self.chunk_size + 1,
            lo == fill_low(*cols, ofs, e as int),
            hi == fill_high(*cols, ofs, e as int),
            lo <= hi <= e,
            x < e,
            z < e,
            heights@.len() == e * e,
            forall|x2: int, z2: int| 0 <= x2 < e && 0 <= z2 < e ==>
                #[trigger] heights@[grid_index(e as int, x2, z2)] == fill_height(*cols, ofs, x2, z2),
            xy_state(old(xy)@, *cols, ofs, e as int, lo as int, hi as int, x as int, z as int, lo as int),
            yz_state(old(yz)@, *cols, ofs, e as int, lo as int, hi as int, x as int, z as int, lo as int),
            old(xz)@.len() == e * e,
            old(top).holds(self.faces_before(*cols, ofs, origin, FaceDir::TOP, x as int, z as int, lo as int)),
            old(bottom).holds(self.faces_before(*cols, ofs, origin, FaceDir::BOTTOM, x as int, z as int, lo as int)),
            old(left).holds(self.faces_before(*cols, ofs, origin, FaceDir::LEFT, x as int, z as int, lo as int)),
            old(right).holds(self.faces_before(*cols, ofs, origin, FaceDir::RIGHT, x as int, z as int, lo as int)),
            old(front).holds(self.faces_before(*cols, ofs, origin, FaceDir::FRONT, x as int, z as int, lo as int)),
            old(back).holds(self.faces_before(*cols, ofs, origin, FaceDir::BACK, x as int, z as int, lo as int)),
        ensures
            xy_state(final(xy)@, *cols, ofs, e as int, lo as int, hi as int, x as int, z + 1, lo as int),
            yz_state(final(yz)@, *cols, ofs, e as int, lo as int, hi as int, x as int, z + 1, lo as int),
            final(xz)@.len() == e * e,
            final(top).holds(self.faces_before(*cols, ofs, origin, FaceDir::TOP, x as int, z + 1, lo as int)),
            final(bottom).holds(self.faces_before(*cols, ofs, origin, FaceDir::BOTTOM, x as int, z + 1, lo as int)),
            final(left).holds(self.faces_before(*cols, ofs, origin, FaceDir::LEFT, x as int, z + 1, lo as int)),
            final(right).holds(self.faces_before(*cols, ofs, origin, FaceDir::RIGHT, x as int, z + 1, lo as int)),
            final(front).holds(self.faces_before(*cols, ofs, origin, FaceDir::FRONT, x as int, z + 1, lo as int)),
            final(back).holds(self.faces_before(*cols, ofs, origin, FaceDir::BACK, x as int, z + 1, lo as int)),
    {
        let ghost c = *cols;
        let ghost ei = e as int;
        let eu = e as usize;
        proof {
            assert(ei * ei <= 513 * 513) by (nonlinear_arith)
                requires
                    0 <= ei <= 513,
            ;
        }
        proof { lemma_grid_index(ei, x as int, z as int); }
        let cell = (x as usize) * eu + (z as usize);
        let height = heights[cell];
        // for y == lo, the line along y starts closed
        xz[cell] = true;
        let mut y: u32 = lo;
        while y < hi
            invariant
                x < e,
                z < e,
                lo <= y <= hi,
                height == fill_height(c, ofs, x as int, z as int),
                xy_state(xy@, c, ofs, ei, lo as int, hi as int, x as int, z as int, y as int),
                yz_state(yz@, c, ofs, ei, lo as int, hi as int, x as int, z as int, y as int),
                xz_state(xz@, c, ofs, ei, lo as int, x as int, z as int, y as int),
                top.holds(self.faces_before(c, ofs, origin, FaceDir::TOP, x as int, z as int, y as int)),
                bottom.holds(self.faces_before(c, ofs, origin, FaceDir::BOTTOM, x as int, z as int, y as int)),
                left.holds(self.faces_before(c, ofs, origin, FaceDir::LEFT, x as int, z as int, y as int)),
                right.holds(self.faces_before(c, ofs, origin, FaceDir::RIGHT, x as int, z as int, y as int)),
                front.holds(self.faces_before(c, ofs, origin, FaceDir::FRONT, x as int, z as int, y as int)),
                back.holds(self.faces_before(c, ofs, origin, FaceDir::BACK, x as int, z as int, y as int)),
            decreases hi - y,
        {
            proof { self.lemma_faces_before_len(c, ofs, origin, x as int, z as int, y as int); }
            self.fill_cell(cols, ofs, origin, e, lo, hi, x, z, y, height,
                xy, yz, xz,
                top, bottom, left, right, front, back);
            y = y + 1;
        }
        xz[cell] = !xz[cell];
        proof {
            assert forall|d: FaceDir| #[trigger] self.faces_before(c, ofs, origin, d, x as int, z + 1, lo as int)
                =~= self.faces_before(c, ofs, origin, d, x as int, z as int, hi as int) by {
                let a = self.faces_all(c, ofs, origin, d, x as int);
                let r = self.faces_row(c, ofs, origin, d, x as int, z as int);
                let cc = self.faces_col(c, ofs, origin, d, x as int, z as int, hi as int);
                assert(self.faces_row(c, ofs, origin, d, x as int, z + 1) == r + cc);
                assert(self.faces_col(c, ofs, origin, d, x as int, z + 1, lo as int) == Seq::<PlacedFace>::empty());
                assert(a + (r + cc) + Seq::<PlacedFace>::empty() =~= a + r + cc);
            }
        }
    }

    /// The scan of the row x of columns.
    #[verifier::loop_isolation(false)]
    fn scan_row(&self, cols: &TerrainColumns, ofs: (i32, i32, i32), origin: (i32, i32, i32),
        e: u32, lo: u32, hi: u32, x: u32, heights: &Vec<i32>,
        xy: &mut Vec<bool>, yz: &mut Vec<bool>, xz: &mut Vec<bool>,
        top: &mut FaceList, bottom: &mut FaceList, left: &mut FaceList,
        right: &mut FaceList, front: &mut FaceList, back: &mut FaceList)
        requires
            self.fill_input_ok(*cols, ofs, origin),
            e == self.chunk_size + 1,
            lo == fill_low(*cols, ofs, e as int),
            hi == fill_high(*cols, ofs, e as int),
            lo <= hi <= e,
            x < e,
            heights@.len() == e * e,
            forall|x2: int, z2: int| 0 <= x2 < e && 0 <= z2 < e ==>
                #[trigger] heights@[grid_index(e as int, x2, z2)] == fill_height(*cols, ofs, x2, z2),
            xy_state(old(xy)@, *cols, ofs, e as int, lo as int, hi as int, x as int, 0, lo as int),
            yz_state(old(yz)@, *cols, ofs, e as int, lo as int, hi as int, x as int, 0, lo as int),
            old(xz)@.len() == e * e,
            old(top).holds(self.faces_before(*cols, ofs, origin, FaceDir::TOP, x as int, 0, lo as int)),
            old(bottom).holds(self.faces_before(*cols, ofs, origin, FaceDir::BOTTOM, x as int, 0, lo as int)),
            old(left).holds(self.faces_before(*cols, ofs, origin, FaceDir::LEFT, x as int, 0, lo as int)),
            old(right).holds(self.faces_before(*cols, ofs, origin, FaceDir::RIGHT, x as int, 0, lo as int)),
            old(front).holds(self.faces_before(*cols, ofs, origin, FaceDir::FRONT, x as int, 0, lo as int)),
            old(back).holds(self.faces_before(*cols, ofs, origin, FaceDir::BACK, x as int, 0, lo as int)),
        ensures
            xy_state(final(xy)@, *cols, ofs, e as int, lo as int, hi as int, x + 1, 0, lo as int),
            yz_state(final(yz)@, *cols, ofs, e as int, lo as int, hi as int, x + 1, 0, lo as int),
            final(xz)@.len() == e * e,
            final(top).holds(self.faces_before(*cols, ofs, origin, FaceDir::TOP, x + 1, 0, lo as int)),
            final(bottom).holds(self.faces_before(*cols, ofs, origin, FaceDir::BOTTOM, x + 1, 0, lo as int)),
            final(left).holds(self.faces_before(*cols, ofs, origin, FaceDir::LEFT, x + 1, 0, lo as int)),
            final(right).holds(self.faces_before(*cols, ofs, origin, FaceDir::RIGHT, x + 1, 0, lo as int)),
            final(front).holds(self.faces_before(*cols, ofs, origin, FaceDir::FRONT, x + 1, 0, lo as int)),
            final(back).holds(self.faces_before(*cols, ofs, origin, FaceDir::BACK, x + 1, 0, lo as int)),
    {
        let ghost c = *cols;
        let ghost ei = e as int;
        let eu = e as usize;
        proof {
            assert(ei * ei <= 513 * 513) by (nonlinear_arith)
                requires
                    0 <= ei <= 513,
            ;
        }
        // for z == 0, the lines along x below the band start closed
        let mut y: u32 = 0;
        while y < lo
            invariant
                x < e,
                y <= lo,
                yz_state(yz@, c, ofs, ei, lo as int, hi as int, x as int, 0, lo as int),
            decreases lo - y,
        {
            let ghost old_yz = yz@;
            proof { lemma_grid_index(ei, y as int, 0); }
            yz[(y as usize) * eu] = true;
            proof {
                assert forall|y2: int, z2: int| lo <= y2 < hi && 0 <= z2 < ei implies #[trigger] yz@[grid_index(ei, y2, z2)] == if z2 < 0 || (z2 == 0 && y2 < lo) {
                    solid(c, ofs, x as int, y2, z2)
                } else {
                    x > 0 && solid(c, ofs, x - 1, y2, z2)
                } by {
                    lemma_grid_index(ei, y2, z2);
                    if grid_index(ei, y2, z2) == grid_index(ei, y as int, 0) {
                        lemma_grid_index_injective(ei, y2, z2, y as int, 0);
                    }
                    assert(yz@[grid_index(ei, y2, z2)] == old_yz[grid_index(ei, y2, z2)]);
                }
            }
            y = y + 1;
        }
        let mut z: u32 = 0;
        while z < e
            invariant
                x < e,
                z <= e,
                xy_state(xy@, c, ofs, ei, lo as int, hi as int, x as int, z as int, lo as int),
                yz_state(yz@, c, ofs, ei, lo as int, hi as int, x as int, z as int, lo as int),
                xz@.len() == ei * ei,
                top.holds(self.faces_before(c, ofs, origin, FaceDir::TOP, x as int, z as int, lo as int)),
                bottom.holds(self.faces_before(c, ofs, origin, FaceDir::BOTTOM, x as int, z as int, lo as int)),
                left.holds(self.faces_before(c, ofs, origin, FaceDir::LEFT, x as int, z as int, lo as int)),
                right.holds(self.faces_before(c, ofs, origin, FaceDir::RIGHT, x as int, z as int, lo as int)),
                front.holds(self.faces_before(c, ofs, origin, FaceDir::FRONT, x as int, z as int, lo as int)),
                back.holds(self.faces_before(c, ofs, origin, FaceDir::BACK, x as int, z as int, lo as int)),
            decreases e - z,
        {
            self.scan_column(cols, ofs, origin, e, lo, hi, x, z, heights,
                xy, yz, xz, top, bottom, left, right, front, back);
            z = z + 1;
        }
        proof {
            assert forall|d: FaceDir| #[trigger] self.faces_before(c, ofs, origin, d, x + 1, 0, lo as int)
                =~= self.faces_before(c, ofs, origin, d, x as int, ei, lo as int) by {
                let a = self.faces_all(c, ofs, origin, d, x as int);
                let r = self.faces_row(c, ofs, origin, d, x as int, ei);
                assert(self.faces_all(c, ofs, origin, d, x + 1) == a + r);
                assert(self.faces_row(c, ofs, origin, d, x + 1, 0) == Seq::<PlacedFace>::empty());
                assert(self.faces_col(c, ofs, origin, d, x + 1, 0, lo as int) == Seq::<PlacedFace>::empty());
                assert(self.faces_col(c, ofs, origin, d, x as int, ei, lo as int) == Seq::<PlacedFace>::empty());
            }
        }
    }

    /// The mesh of the chunk's solid terrain by the mesh fill list algorithm: the surface
    /// levels over the chunk's columns bound the heights to scan; every line of voxels
    /// along x, y and z through that band is followed, and where it passes between solid
    /// and air the face between them is emitted, if it belongs to a drawn block of the
    /// chunk. The six parts hold the TOP, BOTTOM, LEFT, RIGHT, FRONT and BACK faces: for
    /// each side, exactly the faces where the chunk's terrain meets the air, but on the near
    /// sides below the lowest surface of the columns scanned.
    #[verifier::loop_isolation(false)]
    pub fn voluminous_opaque_cubes_mesh(&self, ofs: (i32, i32, i32), origin: (i32, i32, i32), cols: &TerrainColumns)
        -> (r: Vec<(Vec<ChunkVertex>, Vec<u32>, FaceDir)>)
        requires
            self.fill_input_ok(*cols, ofs, origin),
        ensures
            r@.len() == 6,
            part_holds(r@[0], self.fill_faces(*cols, ofs, origin, FaceDir::TOP), FaceDir::TOP),
            part_holds(r@[1], self.fill_faces(*cols, ofs, origin, FaceDir::BOTTOM), FaceDir::BOTTOM),
            part_holds(r@[2], self.fill_faces(*cols, ofs, origin, FaceDir::LEFT), FaceDir::LEFT),
            part_holds(r@[3], self.fill_faces(*cols, ofs, origin, FaceDir::RIGHT), FaceDir::RIGHT),
            part_holds(r@[4], self.fill_faces(*cols, ofs, origin, FaceDir::FRONT), FaceDir::FRONT),
            part_holds(r@[5], self.fill_faces(*cols, ofs, origin, FaceDir::BACK), FaceDir::BACK),
            forall|d: FaceDir| #[trigger] self.surface_faces(*cols, ofs, origin, d, self.fill_faces(*cols, ofs, origin, d)),
    {
        let ghost c = *cols;
        let n = self.chunk_size;
        let e = n + 1;
        let ghost ei = e as int;
        let eu = e as usize;
        proof {
            assert(ei * ei <= 513 * 513) by (nonlinear_arith)
                requires
                    0 <= ei <= 513,
            ;
        }
        let ee = eu * eu;

        let (xz_max_height_bounds, min_height_bound, max_height_bound) = self.column_heights(cols, ofs, origin);
        let lo = min_height_bound;
        let hi = max_height_bound;
        let mut xy_grid: Vec<bool> = open_lines(ee);
        let mut yz_grid: Vec<bool> = open_lines(ee);
        let mut xz_grid: Vec<bool> = open_lines(ee);
        let mut top = FaceList::new();
        let mut bottom = FaceList::new();
        let mut left = FaceList::new();
        let mut right = FaceList::new();
        let mut front = FaceList::new();
        let mut back = FaceList::new();
        proof {
            assert forall|y2: int| 0 < ei && lo <= y2 < hi implies #[trigger] xy_grid@[grid_index(ei, 0, y2)] == if y2 < lo {
                solid(c, ofs, 0, y2, 0)
            } else {
                0 > 0 && solid(c, ofs, 0, y2, 0 - 1)
            } by {
                lemma_grid_index(ei, 0, y2);
            }
            assert forall|x2: int, y2: int| 0 < x2 < ei && lo <= y2 < hi implies !(#[trigger] xy_grid@[grid_index(ei, x2, y2)]) by {
                lemma_grid_index(ei, x2, y2);
            }
            assert forall|y2: int, z2: int| lo <= y2 < hi && 0 <= z2 < ei implies #[trigger] yz_grid@[grid_index(ei, y2, z2)] == if z2 < 0 || (z2 == 0 && y2 < lo) {
                solid(c, ofs, 0, y2, z2)
            } else {
                0 > 0 && solid(c, ofs, 0 - 1, y2, z2)
            } by {
                lemma_grid_index(ei, y2, z2);
            }
        }

        // for x == 0, the lines along z below the band start closed
        let mut y: u32 = 0;
        while y < lo
            invariant
                y <= lo,
                xy_state(xy_grid@, c, ofs, ei, lo as int, hi as int, 0, 0, lo as int),
            decreases lo - y,
        {
            let ghost old_xy = xy_grid@;
            proof { lemma_grid_index(ei, 0, y as int); }
            xy_grid[y as usize] = true;
            proof {
                assert forall|y2: int| 0 < ei && lo <= y2 < hi implies #[trigger] xy_grid@[grid_index(ei, 0, y2)] == if y2 < lo {
                    solid(c, ofs, 0, y2, 0)
                } else {
                    0 > 0 && solid(c, ofs, 0, y2, 0 - 1)
                } by {
                    lemma_grid_index(ei, 0, y2);
                    if grid_index(ei, 0, y2) == y {
                        lemma_grid_index_injective(ei, 0, y2, 0, y as int);
                    }
                    assert(xy_grid@[grid_index(ei, 0, y2)] == old_xy[grid_index(ei, 0, y2)]);
                }
                assert forall|x2: int, y2: int| 0 < x2 < ei && lo <= y2 < hi implies !(#[trigger] xy_grid@[grid_index(ei, x2, y2)]) by {
                    lemma_grid_index(ei, x2, y2);
                    if grid_index(ei, x2, y2) == y {
                        lemma_grid_index_injective(ei, x2, y2, 0, y as int);
                    }
                    assert(xy_grid@[grid_index(ei, x2, y2)] == old_xy[grid_index(ei, x2, y2)]);
                }
            }
            y = y + 1;
        }
        proof {
            assert(yz_state(yz_grid@, c, ofs, ei, lo as int, hi as int, 0, 0, lo as int));
            assert forall|d: FaceDir| #[trigger] self.faces_before(c, ofs, origin, d, 0, 0, lo as int) =~= Seq::<PlacedFace>::empty() by {
                assert(self.faces_col(c, ofs, origin, d, 0, 0, lo as int) == Seq::<PlacedFace>::empty());
            }
        }

        let mut x: u32 = 0;
        while x < e
            invariant
                x <= e,
                xy_state(xy_grid@, c, ofs, ei, lo as int, hi as int, x as int, 0, lo as int),
                yz_state(yz_grid@, c, ofs, ei, lo as int, hi as int, x as int, 0, lo as int),
                xz_grid@.len() == ei * ei,
                top.holds(self.faces_before(c, ofs, origin, FaceDir::TOP, x as int, 0, lo as int)),
                bottom.holds(self.faces_before(c, ofs, origin, FaceDir::BOTTOM, x as int, 0, lo as int)),
                left.holds(self.faces_before(c, ofs, origin, FaceDir::LEFT, x as int, 0, lo as int)),
                right.holds(self.faces_before(c, ofs, origin, FaceDir::RIGHT, x as int, 0, lo as int)),
                front.holds(self.faces_before(c, ofs, origin, FaceDir::FRONT, x as int, 0, lo as int)),
                back.holds(self.faces_before(c, ofs, origin, FaceDir::BACK, x as int, 0, lo as int)),
            decreases e - x,
        {
            self.scan_row(cols, ofs, origin, e, lo, hi, x, &xz_max_height_bounds,
                &mut xy_grid, &mut yz_grid, &mut xz_grid,
                &mut top, &mut bottom, &mut left, &mut right, &mut front, &mut back);
            x = x + 1;
        }
        proof {
            assert forall|d: FaceDir| #[trigger] self.faces_before(c, ofs, origin, d, ei, 0, lo as int)
                =~= self.fill_faces(c, ofs, origin, d) by {
                assert(self.faces_row(c, ofs, origin, d, ei, 0) == Seq::<PlacedFace>::empty());
                assert(self.faces_col(c, ofs, origin, d, ei, 0, lo as int) == Seq::<PlacedFace>::empty());
            }
        }
        let mut parts: Vec<(Vec<ChunkVertex>, Vec<u32>, FaceDir)> = Vec::new();
        parts.push((top.verts, top.inds, FaceDir::TOP));
        parts.push((bottom.verts, bottom.inds, FaceDir::BOTTOM));
        parts.push((left.verts, left.inds, FaceDir::LEFT));
        parts.push((right.verts, right.inds, FaceDir::RIGHT));
        parts.push((front.verts, front.inds, FaceDir::FRONT));
        parts.push((back.verts, back.inds, FaceDir::BACK));
        proof {
            assert forall|d: FaceDir| #[trigger] self.surface_faces(c, ofs, origin, d, self.fill_faces(c, ofs, origin, d)) by {
                self.lemma_fill_emits_exposed_faces(c, ofs, origin, d);
            }
        }
        parts
    }
}

} // verus!
