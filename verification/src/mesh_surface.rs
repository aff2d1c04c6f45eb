//! What the fill of a chunk's solid terrain emits: exactly the faces where the terrain meets
//! the air.
use vstd::prelude::*;
use crate::block::{FaceDir, spec_block_obscures, spec_drawn_block};
use crate::mesh_fill::{
    PlacedFace, fill_block, fill_height, fill_high, fill_low, grid_index, height_max, height_min, lemma_grid_index,
    solid,
};
use crate::mesh_util::{ChunkGeneratorMF, in_chunk};
use crate::terrain_gen::{TerrainColumns, spec_get_block};

verus! {

/// The step from a voxel to its neighbour on the side `dir`.
pub open spec fn dir_offset(dir: FaceDir) -> (int, int, int) {
    match dir {
        FaceDir::TOP => (0, 1, 0),
        FaceDir::BOTTOM => (0, -1, 0),
        FaceDir::LEFT => (-1, 0, 0),
        FaceDir::RIGHT => (1, 0, 0),
        FaceDir::FRONT => (0, 0, 1),
        FaceDir::BACK => (0, 0, -1),
    }
}

/// The voxel (x, y, z) shows its face looking to `dir`: it lies under the surface and its
/// neighbour on that side does not.
pub open spec fn exposed(cols: TerrainColumns, ofs: (i32, i32, i32), dir: FaceDir, x: int, y: int, z: int) -> bool {
    let d = dir_offset(dir);
    solid(cols, ofs, x, y, z) && !solid(cols, ofs, x + d.0, y + d.1, z + d.2)
}

/// The cell of the scan that emits the face looking to `dir` of the voxel (x, y, z).
pub open spec fn emitting_cell(dir: FaceDir, x: int, y: int, z: int) -> (int, int, int) {
    match dir {
        FaceDir::TOP => (x, y + 1, z),
        FaceDir::RIGHT => (x + 1, y, z),
        FaceDir::FRONT => (x, y, z + 1),
        _ => (x, y, z),
    }
}

/// A face of the terrain is emitted at the cell (cx, cy, cz) of the scan.
pub open spec fn emitted_at<'b>(g: ChunkGeneratorMF<'b>, cols: TerrainColumns, ofs: (i32, i32, i32),
    origin: (i32, i32, i32), dir: FaceDir, p: PlacedFace, cx: int, cy: int, cz: int) -> bool {
    let e = g.chunk_size + 1;
    &&& 0 <= cx < e
    &&& 0 <= cz < e
    &&& fill_low(cols, ofs, e) <= cy < fill_high(cols, ofs, e)
    &&& g.cell_face(cols, ofs, origin, dir, cx, cy, cz).contains(p)
}

proof fn lemma_contains_concat(a: Seq<PlacedFace>, b: Seq<PlacedFace>, p: PlacedFace)
    ensures
        (a + b).contains(p) == (a.contains(p) || b.contains(p)),
{
    if (a + b).contains(p) {
        let i = choose|i: int| 0 <= i < (a + b).len() && (a + b)[i] == p;
        if i < a.len() {
            assert(a[i] == p);
        } else {
            assert(b[i - a.len()] == p);
        }
    }
    if a.contains(p) {
        let i = choose|i: int| 0 <= i < a.len() && a[i] == p;
        assert((a + b)[i] == p);
    }
    if b.contains(p) {
        let i = choose|i: int| 0 <= i < b.len() && b[i] == p;
        assert((a + b)[a.len() + i] == p);
    }
}

impl<'b> ChunkGeneratorMF<'b> {
    proof fn lemma_col_contains(&self, cols: TerrainColumns, ofs: (i32, i32, i32), origin: (i32, i32, i32),
        dir: FaceDir, x: int, z: int, y: int, p: PlacedFace)
        ensures
            self.faces_col(cols, ofs, origin, dir, x, z, y).contains(p) <==> exists|cy: int|
                fill_low(cols, ofs, self.chunk_size + 1) <= cy < y
                && #[trigger] self.cell_face(cols, ofs, origin, dir, x, cy, z).contains(p),
        decreases y - fill_low(cols, ofs, self.chunk_size + 1),
    {
        let lo = fill_low(cols, ofs, self.chunk_size + 1);
        if y > lo {
            self.lemma_col_contains(cols, ofs, origin, dir, x, z, y - 1, p);
            lemma_contains_concat(self.faces_col(cols, ofs, origin, dir, x, z, y - 1),
                self.cell_face(cols, ofs, origin, dir, x, y - 1, z), p);
        }
    }

    proof fn lemma_row_contains(&self, cols: TerrainColumns, ofs: (i32, i32, i32), origin: (i32, i32, i32),
        dir: FaceDir, x: int, z: int, p: PlacedFace)
        ensures
            self.faces_row(cols, ofs, origin, dir, x, z).contains(p) <==> exists|cz: int, cy: int|
                0 <= cz < z && fill_low(cols, ofs, self.chunk_size + 1) <= cy < fill_high(cols, ofs, self.chunk_size + 1)
                && #[trigger] self.cell_face(cols, ofs, origin, dir, x, cy, cz).contains(p),
        decreases z,
    {
        let hi = fill_high(cols, ofs, self.chunk_size + 1);
        if z > 0 {
            self.lemma_row_contains(cols, ofs, origin, dir, x, z - 1, p);
            self.lemma_col_contains(cols, ofs, origin, dir, x, z - 1, hi, p);
            lemma_contains_concat(self.faces_row(cols, ofs, origin, dir, x, z - 1),
                self.faces_col(cols, ofs, origin, dir, x, z - 1, hi), p);
        }
    }

    /// A face is among the first `x` rows of the fill exactly when a cell of those rows
    /// emits it.
    proof fn lemma_all_contains(&self, cols: TerrainColumns, ofs: (i32, i32, i32), origin: (i32, i32, i32),
        dir: FaceDir, x: int, p: PlacedFace)
        ensures
            self.faces_all(cols, ofs, origin, dir, x).contains(p) <==> exists|cx: int, cz: int, cy: int|
                0 <= cx < x && #[trigger] emitted_at(*self, cols, ofs, origin, dir, p, cx, cy, cz),
        decreases x,
    {
        let e = self.chunk_size + 1;
        if x > 0 {
            self.lemma_all_contains(cols, ofs, origin, dir, x - 1, p);
            self.lemma_row_contains(cols, ofs, origin, dir, x - 1, e, p);
            lemma_contains_concat(self.faces_all(cols, ofs, origin, dir, x - 1),
                self.faces_row(cols, ofs, origin, dir, x - 1, e), p);
            if self.faces_row(cols, ofs, origin, dir, x - 1, e).contains(p) {
                let (cz, cy) = choose|cz: int, cy: int| 0 <= cz < e
                    && fill_low(cols, ofs, e) <= cy < fill_high(cols, ofs, e)
                    && #[trigger] self.cell_face(cols, ofs, origin, dir, x - 1, cy, cz).contains(p);
                assert(emitted_at(*self, cols, ofs, origin, dir, p, x - 1, cy, cz));
            }
            if exists|cx: int, cz: int, cy: int| 0 <= cx < x && #[trigger] emitted_at(*self, cols, ofs, origin, dir, p, cx, cy, cz) {
                let (cx, cz, cy) = choose|cx: int, cz: int, cy: int| 0 <= cx < x
                    && #[trigger] emitted_at(*self, cols, ofs, origin, dir, p, cx, cy, cz);
                if cx == x - 1 {
                    assert(self.cell_face(cols, ofs, origin, dir, x - 1, cy, cz).contains(p));
                }
            }
        }
    }
}

/// Below a column's surface lie the blocks that hide their neighbours' faces and are drawn;
/// above it none.
proof fn lemma_block_solid(y: int, col: crate::terrain_gen::ColumnSample)
    ensures
        spec_block_obscures(spec_get_block(y, col)) == (y < col.base_level),
        y < col.base_level ==> spec_drawn_block(spec_get_block(y, col)) is Some,
{
}

proof fn lemma_heights_upto(cols: TerrainColumns, ofs: (i32, i32, i32), e: int, k: int, i: int)
    requires
        1 <= e,
        0 <= i < k,
    ensures
        height_min(cols, ofs, e, k) <= fill_height(cols, ofs, i / e, i % e) <= height_max(cols, ofs, e, k),
    decreases k,
{
    if k > 1 && i < k - 1 {
        lemma_heights_upto(cols, ofs, e, k - 1, i);
    }
    if i == 0 {
        assert(0int / e == 0 && 0int % e == 0) by (nonlinear_arith)
            requires
                1 <= e,
        ;
    }
}

/// Every column of the scanned grid lies between the lowest and the highest surface level.
proof fn lemma_grid_heights(cols: TerrainColumns, ofs: (i32, i32, i32), e: int, gx: int, gz: int)
    requires
        0 <= gx < e,
        0 <= gz < e,
    ensures
        height_min(cols, ofs, e, e * e) <= fill_height(cols, ofs, gx, gz) <= height_max(cols, ofs, e, e * e),
{
    lemma_grid_index(e, gx, gz);
    lemma_heights_upto(cols, ofs, e, e * e, grid_index(e, gx, gz));
}

/// The cell of the scan whose face the voxel of an emitting cell is.
pub open spec fn voxel_of_cell(dir: FaceDir, x: int, y: int, z: int) -> (int, int, int) {
    match dir {
        FaceDir::TOP => (x, y - 1, z),
        FaceDir::RIGHT => (x - 1, y, z),
        FaceDir::FRONT => (x, y, z - 1),
        _ => (x, y, z),
    }
}

impl<'b> ChunkGeneratorMF<'b> {
    /// The face looking to `dir` of the solid voxel (x, y, z), as the fill places it.
    pub open spec fn voxel_face(&self, cols: TerrainColumns, ofs: (i32, i32, i32), origin: (i32, i32, i32),
        dir: FaceDir, x: int, y: int, z: int) -> PlacedFace {
        PlacedFace {
            loc: ((origin.0 + x) as i32, (origin.1 + y) as i32, (-(origin.2 + z)) as i32),
            dir,
            txtr: self.face_txtr(
                self.block_ind@[spec_drawn_block(fill_block(cols, ofs, x, y, z))->Some_0.0 as int].texture_id, dir),
        }
    }

    /// A cell of the scan emits a face only for the voxel the face belongs to, and only where
    /// that voxel, inside the chunk, shows it.
    proof fn lemma_cell_sound(&self, cols: TerrainColumns, ofs: (i32, i32, i32), origin: (i32, i32, i32),
        dir: FaceDir, x: int, y: int, z: int, p: PlacedFace)
        requires
            self.fill_input_ok(cols, ofs, origin),
            0 <= x < self.chunk_size + 1,
            0 <= z < self.chunk_size + 1,
            self.cell_face(cols, ofs, origin, dir, x, y, z).contains(p),
        ensures
            in_chunk(self.chunk_size as int, voxel_of_cell(dir, x, y, z).0, voxel_of_cell(dir, x, y, z).1,
                voxel_of_cell(dir, x, y, z).2),
            p == self.voxel_face(cols, ofs, origin, dir, voxel_of_cell(dir, x, y, z).0, voxel_of_cell(dir, x, y, z).1,
                voxel_of_cell(dir, x, y, z).2),
            exposed(cols, ofs, dir, voxel_of_cell(dir, x, y, z).0, voxel_of_cell(dir, x, y, z).1,
                voxel_of_cell(dir, x, y, z).2),
    {
        let e = self.chunk_size + 1;
        let v = voxel_of_cell(dir, x, y, z);
        let col = cols.col(ofs.0 + v.0, ofs.2 + v.2);
        lemma_block_solid(ofs.1 + v.1, col);
        let t = self.target_face(cols, ofs, origin, dir, v.0, v.1, v.2);
        match dir {
            FaceDir::TOP => {
                let lo = fill_low(cols, ofs, e);
                if y == lo {
                    lemma_grid_heights(cols, ofs, e, x, z);
                }
            },
            FaceDir::BACK => {
                if z == 0 {
                    lemma_block_solid(ofs.1 + y, cols.col(ofs.0 + x, ofs.2 - 1));
                }
            },
            FaceDir::LEFT => {
                if x == 0 {
                    lemma_block_solid(ofs.1 + y, cols.col(ofs.0 - 1, ofs.2 + z));
                }
            },
            _ => {},
        }
        assert(t.contains(p));
        assert(t.len() == 1);
        assert(t[0] == p);
    }
}

/// The faces the scan misses: on the chunk's near sides (LEFT at x = 0, BACK at z = 0),
/// below the lowest surface of the columns the scan reads, where the neighbouring column
/// outside the chunk is lower still.
pub open spec fn near_side_gap(cols: TerrainColumns, ofs: (i32, i32, i32), e: int, dir: FaceDir, x: int, y: int, z: int) -> bool {
    &&& ((dir == FaceDir::LEFT && x == 0) || (dir == FaceDir::BACK && z == 0))
    &&& y < fill_low(cols, ofs, e)
}

impl<'b> ChunkGeneratorMF<'b> {
    /// The scan emits the face of every voxel of the chunk that shows it, at the voxel's
    /// emitting cell, but on the near sides below the scanned heights.
    proof fn lemma_cell_complete(&self, cols: TerrainColumns, ofs: (i32, i32, i32), origin: (i32, i32, i32),
        dir: FaceDir, x: int, y: int, z: int)
        requires
            self.fill_input_ok(cols, ofs, origin),
            in_chunk(self.chunk_size as int, x, y, z),
            exposed(cols, ofs, dir, x, y, z),
            !near_side_gap(cols, ofs, self.chunk_size + 1, dir, x, y, z),
        ensures
            emitted_at(*self, cols, ofs, origin, dir, self.voxel_face(cols, ofs, origin, dir, x, y, z),
                emitting_cell(dir, x, y, z).0, emitting_cell(dir, x, y, z).1, emitting_cell(dir, x, y, z).2),
    {
        let e = self.chunk_size + 1;
        let c = emitting_cell(dir, x, y, z);
        let d = dir_offset(dir);
        lemma_block_solid(ofs.1 + y, cols.col(ofs.0 + x, ofs.2 + z));
        lemma_grid_heights(cols, ofs, e, x, z);
        if 0 <= x + d.0 < e && 0 <= z + d.2 < e {
            lemma_grid_heights(cols, ofs, e, x + d.0, z + d.2);
        }
        match dir {
            FaceDir::BACK => {
                if z == 0 {
                    lemma_block_solid(ofs.1 + y, cols.col(ofs.0 + x, ofs.2 - 1));
                }
            },
            FaceDir::LEFT => {
                if x == 0 {
                    lemma_block_solid(ofs.1 + y, cols.col(ofs.0 - 1, ofs.2 + z));
                }
            },
            _ => {},
        }
        let f = self.voxel_face(cols, ofs, origin, dir, x, y, z);
        let t = self.cell_face(cols, ofs, origin, dir, c.0, c.1, c.2);
        assert(t =~= seq![f]);
        assert(t[0] == f);
    }

    /// `faces` are exactly the faces, looking to `dir`, where the chunk's terrain meets the
    /// air: each is the face of a voxel of the chunk under the surface whose neighbour on that
    /// side lies above it; a voxel's face is among them only when the voxel shows it, and
    /// every voxel that shows it has it there, but on the chunk's near sides below the lowest
    /// surface of the columns the fill reads.
    pub open spec fn surface_faces(&self, cols: TerrainColumns, ofs: (i32, i32, i32), origin: (i32, i32, i32),
        dir: FaceDir, faces: Seq<PlacedFace>) -> bool {
        &&& forall|i: int| #![trigger faces[i]]
            0 <= i < faces.len() ==> exists|x: int, y: int, z: int| {
                &&& in_chunk(self.chunk_size as int, x, y, z)
                &&& exposed(cols, ofs, dir, x, y, z)
                &&& faces[i] == #[trigger] self.voxel_face(cols, ofs, origin, dir, x, y, z)
            }
        &&& forall|x: int, y: int, z: int| in_chunk(self.chunk_size as int, x, y, z) ==>
            (faces.contains(#[trigger] self.voxel_face(cols, ofs, origin, dir, x, y, z))
                ==> exposed(cols, ofs, dir, x, y, z))
        &&& forall|x: int, y: int, z: int| in_chunk(self.chunk_size as int, x, y, z) && exposed(cols, ofs, dir, x, y, z)
            && !near_side_gap(cols, ofs, self.chunk_size + 1, dir, x, y, z) ==>
            faces.contains(#[trigger] self.voxel_face(cols, ofs, origin, dir, x, y, z))
    }

    /// The mesh fill emits exactly the faces where the chunk's terrain meets the air.
    pub proof fn lemma_fill_emits_exposed_faces(&self, cols: TerrainColumns, ofs: (i32, i32, i32),
        origin: (i32, i32, i32), dir: FaceDir)
        requires
            self.fill_input_ok(cols, ofs, origin),
        ensures
            self.surface_faces(cols, ofs, origin, dir, self.fill_faces(cols, ofs, origin, dir)),
    {
        let e = self.chunk_size + 1;
        let faces = self.fill_faces(cols, ofs, origin, dir);
        assert forall|i: int| #![trigger faces[i]] 0 <= i < faces.len() implies exists|x: int, y: int, z: int| {
            &&& in_chunk(self.chunk_size as int, x, y, z)
            &&& exposed(cols, ofs, dir, x, y, z)
            &&& faces[i] == #[trigger] self.voxel_face(cols, ofs, origin, dir, x, y, z)
        } by {
            let p = faces[i];
            assert(faces.contains(p));
            self.lemma_all_contains(cols, ofs, origin, dir, e, p);
            let (cx, cz, cy) = choose|cx: int, cz: int, cy: int| 0 <= cx < e
                && #[trigger] emitted_at(*self, cols, ofs, origin, dir, p, cx, cy, cz);
            self.lemma_cell_sound(cols, ofs, origin, dir, cx, cy, cz, p);
            let v = voxel_of_cell(dir, cx, cy, cz);
            assert(faces[i] == self.voxel_face(cols, ofs, origin, dir, v.0, v.1, v.2));
        }
        assert forall|x: int, y: int, z: int| in_chunk(self.chunk_size as int, x, y, z)
            && faces.contains(#[trigger] self.voxel_face(cols, ofs, origin, dir, x, y, z)) implies
            exposed(cols, ofs, dir, x, y, z) by {
            let p = self.voxel_face(cols, ofs, origin, dir, x, y, z);
            {
                self.lemma_all_contains(cols, ofs, origin, dir, e, p);
                let (cx, cz, cy) = choose|cx: int, cz: int, cy: int| 0 <= cx < e
                    && #[trigger] emitted_at(*self, cols, ofs, origin, dir, p, cx, cy, cz);
                self.lemma_cell_sound(cols, ofs, origin, dir, cx, cy, cz, p);
                let v = voxel_of_cell(dir, cx, cy, cz);
                assert(p.loc == self.voxel_face(cols, ofs, origin, dir, v.0, v.1, v.2).loc);
                assert(v.0 == x && v.1 == y && v.2 == z);
            }
        }
        assert forall|x: int, y: int, z: int| in_chunk(self.chunk_size as int, x, y, z) && exposed(cols, ofs, dir, x, y, z)
            && !near_side_gap(cols, ofs, e, dir, x, y, z) implies
            faces.contains(#[trigger] self.voxel_face(cols, ofs, origin, dir, x, y, z)) by {
            let p = self.voxel_face(cols, ofs, origin, dir, x, y, z);
            let c = emitting_cell(dir, x, y, z);
            self.lemma_cell_complete(cols, ofs, origin, dir, x, y, z);
            self.lemma_all_contains(cols, ofs, origin, dir, e, p);
            assert(emitted_at(*self, cols, ofs, origin, dir, p, c.0, c.1, c.2));
        }
    }
}

impl<'b> ChunkGeneratorMF<'b> {
    /// Each column of the chunk shows one TOP face, on the voxel right under its surface: a
    /// voxel's TOP face is among the faces the fill emits exactly when the voxel is the
    /// highest under the surface of its column.
    pub proof fn lemma_one_top_face_per_column(&self, cols: TerrainColumns, ofs: (i32, i32, i32),
        origin: (i32, i32, i32))
        requires
            self.fill_input_ok(cols, ofs, origin),
        ensures
            forall|x: int, y: int, z: int| in_chunk(self.chunk_size as int, x, y, z) ==>
                (self.fill_faces(cols, ofs, origin, FaceDir::TOP).contains(
                    #[trigger] self.voxel_face(cols, ofs, origin, FaceDir::TOP, x, y, z))
                <==> ofs.1 + y + 1 == fill_height(cols, ofs, x, z)),
    {
        self.lemma_fill_emits_exposed_faces(cols, ofs, origin, FaceDir::TOP);
    }
}

} // verus!
