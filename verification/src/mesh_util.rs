//! Mesh building blocks of a chunk generator: block faces and crosses, voxel indexing,
//! and the culling pass that marks hidden voxels.
use vstd::prelude::*;
use crate::block::{Block, BlockCullType, BlockData, FaceDir, TextureMapper, spec_block_obscures, spec_fluid_obscures, spec_face_texture};
use crate::texture::TextureIdMapper;
use crate::terrain_gen::TERRAIN_BLOCK_COUNT;

verus! {

/// The largest chunk edge, in blocks, that a chunk generator meshes: the largest power of
/// two for which a chunk's mesh, up to six faces of four vertices per voxel, has vertex
/// indices that fit in a `u32`.
pub const MAX_CHUNK_SIZE: u32 = 512;
/// The largest distance of a chunk origin from the world origin, in blocks, on any axis.
pub const MAX_COORD: i32 = 0x2000_0000;

/// A vertex of the terrain mesh. Its position is on the block lattice, except that a
/// `lowered` vertex sits a tenth of a block below `y` (the top of a fluid surface).
/// `u` and `v` are the texture coordinates (0 or 1) and `txtr` the texture id.
#[derive(Copy, Clone, Debug, PartialEq, Eq, Structural)]
pub struct ChunkVertex {
    pub x: i32,
    pub y: i32,
    pub z: i32,
    pub lowered: bool,
    pub u: u8,
    pub v: u8,
    pub txtr: u32,
}

/// A vertex of the block at `loc`, moved by (`dx`, `dy`, `dz`). The location's z runs
/// against the vertex z: the vertex lies at `-loc.2 + dz`. The `top` vertices of a fluid face
/// are lowered.
pub open spec fn corner(loc: (i32, i32, i32), dx: int, dy: int, dz: int, fluid: bool, u: u8, v: u8, t: u32) -> ChunkVertex {
    ChunkVertex {
        x: (loc.0 + dx) as i32,
        y: (loc.1 + dy) as i32,
        z: (-loc.2 + dz) as i32,
        lowered: fluid && dy == 1,
        u,
        v,
        txtr: t,
    }
}

/// The four vertices of the unit face of the block at `loc` looking to `dir`.
pub open spec fn face_vertices(loc: (i32, i32, i32), dir: FaceDir, t: u32, fluid: bool) -> Seq<ChunkVertex> {
    match dir {
        FaceDir::FRONT => seq![
            corner(loc, 1, 0, 0, fluid, 1, 1, t),
            corner(loc, 0, 1, 0, fluid, 0, 0, t),
            corner(loc, 0, 0, 0, fluid, 0, 1, t),
            corner(loc, 1, 1, 0, fluid, 1, 0, t),
        ],
        FaceDir::RIGHT => seq![
            corner(loc, 1, 0, 0, fluid, 1, 1, t),
            corner(loc, 1, 1, 0, fluid, 1, 0, t),
            corner(loc, 1, 0, -1, fluid, 0, 1, t),
            corner(loc, 1, 1, -1, fluid, 0, 0, t),
        ],
        FaceDir::BACK => seq![
            corner(loc, 0, 0, -1, fluid, 0, 1, t),
            corner(loc, 1, 0, -1, fluid, 1, 1, t),
            corner(loc, 0, 1, -1, fluid, 0, 0, t),
            corner(loc, 1, 1, -1, fluid, 1, 0, t),
        ],
        FaceDir::LEFT => seq![
            corner(loc, 0, 0, 0, fluid, 1, 1, t),
            corner(loc, 0, 1, 0, fluid, 1, 0, t),
            corner(loc, 0, 0, -1, fluid, 0, 1, t),
            corner(loc, 0, 1, -1, fluid, 0, 0, t),
        ],
        FaceDir::TOP => seq![
            corner(loc, 0, 1, 0, fluid, 1, 1, t),
            corner(loc, 1, 1, 0, fluid, 0, 1, t),
            corner(loc, 0, 1, -1, fluid, 1, 0, t),
            corner(loc, 1, 1, -1, fluid, 0, 0, t),
        ],
        FaceDir::BOTTOM => seq![
            corner(loc, 0, 0, 0, fluid, 0, 1, t),
            corner(loc, 1, 0, 0, fluid, 1, 1, t),
            corner(loc, 0, 0, -1, fluid, 0, 0, t),
            corner(loc, 1, 0, -1, fluid, 1, 0, t),
        ],
    }
}

/// The two triangles of a face, as indices into its four vertices.
pub open spec fn face_index_pattern(dir: FaceDir) -> Seq<int> {
    match dir {
        FaceDir::FRONT => seq![0, 1, 2, 3, 1, 0],
        FaceDir::RIGHT => seq![0, 2, 1, 3, 1, 2],
        FaceDir::BACK => seq![1, 0, 3, 2, 3, 0],
        FaceDir::LEFT => seq![2, 0, 3, 1, 3, 0],
        FaceDir::TOP => seq![0, 1, 2, 3, 2, 1],
        FaceDir::BOTTOM => seq![1, 0, 3, 2, 3, 0],
    }
}

/// The indices of a face whose vertices start at `ofs` in the vertex buffer.
pub open spec fn face_indices(dir: FaceDir, ofs: int) -> Seq<u32> {
    face_index_pattern(dir).map_values(|i: int| (i + ofs) as u32)
}

/// A face is two triangles over its four vertices, whatever its offset: its six indices
/// are those of the face at offset 0 moved by the offset, each below four, and every vertex
/// of the face is used.
pub proof fn lemma_face_indices_shift(dir: FaceDir, ofs: int)
    requires
        0 <= ofs,
        ofs + 3 <= u32::MAX,
    ensures
        face_indices(dir, ofs).len() == 6,
        forall|k: int| 0 <= k < 6 ==> #[trigger] face_indices(dir, ofs)[k] == face_indices(dir, 0)[k] + ofs,
        forall|k: int| 0 <= k < 6 ==> #[trigger] face_indices(dir, 0)[k] < 4,
        forall|j: u32| j < 4 ==> #[trigger] face_indices(dir, 0).contains(j),
{
    let p = face_index_pattern(dir);
    assert forall|j: u32| j < 4 implies #[trigger] face_indices(dir, 0).contains(j) by {
        let f = face_indices(dir, 0);
        match dir {
            FaceDir::FRONT => { if j == 0 { assert(f[0] == j); } else if j == 1 { assert(f[1] == j); } else if j == 2 { assert(f[2] == j); } else { assert(f[3] == j); } },
            FaceDir::RIGHT => { if j == 0 { assert(f[0] == j); } else if j == 1 { assert(f[2] == j); } else if j == 2 { assert(f[1] == j); } else { assert(f[3] == j); } },
            FaceDir::BACK => { if j == 0 { assert(f[1] == j); } else if j == 1 { assert(f[0] == j); } else if j == 2 { assert(f[3] == j); } else { assert(f[2] == j); } },
            FaceDir::LEFT => { if j == 0 { assert(f[1] == j); } else if j == 1 { assert(f[3] == j); } else if j == 2 { assert(f[0] == j); } else { assert(f[2] == j); } },
            FaceDir::TOP => { if j == 0 { assert(f[0] == j); } else if j == 1 { assert(f[1] == j); } else if j == 2 { assert(f[2] == j); } else { assert(f[3] == j); } },
            FaceDir::BOTTOM => { if j == 0 { assert(f[1] == j); } else if j == 1 { assert(f[0] == j); } else if j == 2 { assert(f[3] == j); } else { assert(f[2] == j); } },
        }
    }
}

/// The eight vertices of the two diagonal quads of a plant at `loc`.
pub open spec fn xcross_vertices(loc: (i32, i32, i32), t: u32) -> Seq<ChunkVertex> {
    seq![
        corner(loc, 0, 0, 0, false, 1, 1, t),
        corner(loc, 0, 1, 0, false, 1, 0, t),
        corner(loc, 1, 0, -1, false, 0, 1, t),
        corner(loc, 1, 1, -1, false, 0, 0, t),
        corner(loc, 1, 0, 0, false, 1, 1, t),
        corner(loc, 1, 1, 0, false, 1, 0, t),
        corner(loc, 0, 0, -1, false, 0, 1, t),
        corner(loc, 0, 1, -1, false, 0, 0, t),
    ]
}

pub open spec fn xcross_index_pattern() -> Seq<int> {
    seq![0, 1, 2, 2, 1, 3, 4, 5, 6, 6, 5, 7]
}

/// The indices of a plant whose vertices start at `ofs` in the vertex buffer.
pub open spec fn xcross_indices(ofs: int) -> Seq<u32> {
    xcross_index_pattern().map_values(|i: int| (i + ofs) as u32)
}

/// A point whose faces and crosses stay on the `i32` lattice.
pub open spec fn loc_in_range(loc: (i32, i32, i32)) -> bool {
    &&& loc.0 < i32::MAX
    &&& loc.1 < i32::MAX
    &&& loc.2 > i32::MIN
}

/// The position in a chunk's voxel array of the voxel (x, y, z): layer by layer along y,
/// then row by row along x.
pub open spec fn voxel_index(n: int, x: int, y: int, z: int) -> int {
    y * n * n + x * n + z
}

pub open spec fn in_chunk(n: int, x: int, y: int, z: int) -> bool {
    0 <= x < n && 0 <= y < n && 0 <= z < n
}

/// Every voxel of a chunk of `n` blocks a side has an index that a `u32` holds.
pub open spec fn chunk_indexable(n: int) -> bool {
    n * n * n <= u32::MAX + 1
}

pub proof fn lemma_index_fits(n: int, x: int, y: int, z: int)
    requires
        in_chunk(n, x, y, z),
        chunk_indexable(n),
    ensures
        0 <= voxel_index(n, x, y, z) < n * n * n,
        voxel_index(n, x, y, z) <= u32::MAX,
{
    lemma_voxel_index_bounds(n, x, y, z);
}

pub proof fn lemma_voxel_index_bounds(n: int, x: int, y: int, z: int)
    requires
        in_chunk(n, x, y, z),
    ensures
        0 <= voxel_index(n, x, y, z) < n * n * n,
{
    assert(0 <= y * n * n + x * n + z < n * n * n) by (nonlinear_arith)
        requires
            0 <= x < n,
            0 <= y < n,
            0 <= z < n,
    ;
}

pub proof fn lemma_voxel_index_injective(n: int, x1: int, y1: int, z1: int, x2: int, y2: int, z2: int)
    requires
        in_chunk(n, x1, y1, z1),
        in_chunk(n, x2, y2, z2),
        voxel_index(n, x1, y1, z1) == voxel_index(n, x2, y2, z2),
    ensures
        x1 == x2 && y1 == y2 && z1 == z2,
{
    let i = voxel_index(n, x1, y1, z1);
    assert(i == (y1 * n + x1) * n + z1) by (nonlinear_arith)
        requires
            i == y1 * n * n + x1 * n + z1,
    ;
    assert(i == (y2 * n + x2) * n + z2) by (nonlinear_arith)
        requires
            i == y2 * n * n + x2 * n + z2,
    ;
    vstd::arithmetic::div_mod::lemma_fundamental_div_mod_converse(i, n, y1 * n + x1, z1);
    vstd::arithmetic::div_mod::lemma_fundamental_div_mod_converse(i, n, y2 * n + x2, z2);
    let j = y1 * n + x1;
    vstd::arithmetic::div_mod::lemma_fundamental_div_mod_converse(j, n, y1, x1);
    vstd::arithmetic::div_mod::lemma_fundamental_div_mod_converse(j, n, y2, x2);
}

/// A voxel strictly inside the chunk, whose six neighbours are in the chunk too.
pub open spec fn interior(n: int, x: int, y: int, z: int) -> bool {
    1 <= x < n - 1 && 1 <= y < n - 1 && 1 <= z < n - 1
}

/// Whether all six neighbours of (x, y, z) hide the faces of a solid block.
pub open spec fn neighbours_obscure_block(v: Seq<BlockCullType>, n: int, x: int, y: int, z: int) -> bool {
    &&& spec_block_obscures(v[voxel_index(n, x + 1, y, z)])
    &&& spec_block_obscures(v[voxel_index(n, x - 1, y, z)])
    &&& spec_block_obscures(v[voxel_index(n, x, y + 1, z)])
    &&& spec_block_obscures(v[voxel_index(n, x, y - 1, z)])
    &&& spec_block_obscures(v[voxel_index(n, x, y, z + 1)])
    &&& spec_block_obscures(v[voxel_index(n, x, y, z - 1)])
}

/// Whether all six neighbours of (x, y, z) hide the faces of a fluid block.
pub open spec fn neighbours_obscure_fluid(v: Seq<BlockCullType>, n: int, x: int, y: int, z: int) -> bool {
    &&& spec_fluid_obscures(v[voxel_index(n, x + 1, y, z)])
    &&& spec_fluid_obscures(v[voxel_index(n, x - 1, y, z)])
    &&& spec_fluid_obscures(v[voxel_index(n, x, y + 1, z)])
    &&& spec_fluid_obscures(v[voxel_index(n, x, y - 1, z)])
    &&& spec_fluid_obscures(v[voxel_index(n, x, y, z + 1)])
    &&& spec_fluid_obscures(v[voxel_index(n, x, y, z - 1)])
}

/// The voxel (x, y, z) after culling: an interior unculled solid whose six neighbours all
/// hide solid faces becomes `Obscured`; an interior unculled fluid whose six neighbours all
/// hide fluid faces becomes `ObscuredFluid`; every other voxel stays as it is.
pub open spec fn culled(v: Seq<BlockCullType>, n: int, x: int, y: int, z: int) -> BlockCullType {
    let b = v[voxel_index(n, x, y, z)];
    if interior(n, x, y, z) && b is BorderVisible0 && neighbours_obscure_block(v, n, x, y, z) {
        BlockCullType::Obscured
    } else if interior(n, x, y, z) && b is BorderVisibleFluid0 && neighbours_obscure_fluid(v, n, x, y, z) {
        BlockCullType::ObscuredFluid
    } else {
        b
    }
}

proof fn lemma_culled_keeps_power(v: Seq<BlockCullType>, n: int, x: int, y: int, z: int)
    ensures
        spec_block_obscures(culled(v, n, x, y, z)) == spec_block_obscures(v[voxel_index(n, x, y, z)]),
        spec_fluid_obscures(culled(v, n, x, y, z)) == spec_fluid_obscures(v[voxel_index(n, x, y, z)]),
{
}

/// Culling is idempotent: on a chunk culled once, a second pass changes no voxel.
pub proof fn lemma_culling_idempotent(v: Seq<BlockCullType>, w: Seq<BlockCullType>, n: int)
    requires
        1 <= n,
        v.len() >= n * n * n,
        w.len() >= n * n * n,
        forall|x: int, y: int, z: int| in_chunk(n, x, y, z) ==>
            w[#[trigger] voxel_index(n, x, y, z)] == culled(v, n, x, y, z),
    ensures
        forall|x: int, y: int, z: int| in_chunk(n, x, y, z) ==>
            culled(w, n, x, y, z) == w[#[trigger] voxel_index(n, x, y, z)],
{
    assert forall|x: int, y: int, z: int| in_chunk(n, x, y, z) implies
        culled(w, n, x, y, z) == w[#[trigger] voxel_index(n, x, y, z)] by {
        if interior(n, x, y, z) {
            assert(w[voxel_index(n, x + 1, y, z)] == culled(v, n, x + 1, y, z));
            assert(w[voxel_index(n, x - 1, y, z)] == culled(v, n, x - 1, y, z));
            assert(w[voxel_index(n, x, y + 1, z)] == culled(v, n, x, y + 1, z));
            assert(w[voxel_index(n, x, y - 1, z)] == culled(v, n, x, y - 1, z));
            assert(w[voxel_index(n, x, y, z + 1)] == culled(v, n, x, y, z + 1));
            assert(w[voxel_index(n, x, y, z - 1)] == culled(v, n, x, y, z - 1));
            lemma_culled_keeps_power(v, n, x + 1, y, z);
            lemma_culled_keeps_power(v, n, x - 1, y, z);
            lemma_culled_keeps_power(v, n, x, y + 1, z);
            lemma_culled_keeps_power(v, n, x, y - 1, z);
            lemma_culled_keeps_power(v, n, x, y, z + 1);
            lemma_culled_keeps_power(v, n, x, y, z - 1);
            assert(neighbours_obscure_block(w, n, x, y, z) == neighbours_obscure_block(v, n, x, y, z));
            assert(neighbours_obscure_fluid(w, n, x, y, z) == neighbours_obscure_fluid(v, n, x, y, z));
        }
    }
}

/// A culling step only ever hides an unculled voxel: solids become `Obscured`, fluids
/// `ObscuredFluid`, so whether a voxel hides its neighbours' faces does not change.
pub open spec fn cull_step(a: BlockCullType, b: BlockCullType) -> bool {
    ||| b == a
    ||| (a is BorderVisible0 && b == BlockCullType::Obscured)
    ||| (a is BorderVisibleFluid0 && b == BlockCullType::ObscuredFluid)
}

/// (a, b, c) comes before (x, y, z) in the order the culling pass visits voxels.
pub open spec fn visited_before(a: int, b: int, c: int, x: int, y: int, z: int) -> bool {
    a < x || (a == x && (b < y || (b == y && c < z)))
}

/// The voxels after the culling pass has visited every voxel before (x, y, z).
pub open spec fn cull_state(cur: Seq<BlockCullType>, old: Seq<BlockCullType>, n: int, x: int, y: int, z: int) -> bool {
    &&& cur.len() == old.len() >= n * n * n
    &&& forall|i: int| n * n * n <= i < cur.len() ==> #[trigger] cur[i] == old[i]
    &&& forall|i: int| 0 <= i < cur.len() ==> cull_step(old[i], #[trigger] cur[i])
    &&& forall|a: int, b: int, c: int| in_chunk(n, a, b, c) ==>
        cur[#[trigger] voxel_index(n, a, b, c)] == if interior(n, a, b, c) && visited_before(a, b, c, x, y, z) {
            culled(old, n, a, b, c)
        } else {
            old[voxel_index(n, a, b, c)]
        }
}

/// A meshing generator: chunks of `chunk_size` blocks a side, a block table, and the
/// texture ids of the block textures.
pub struct ChunkGeneratorMF<'b> {
    pub chunk_size: u32,
    pub block_ind: Vec<BlockData<'b>>,
    pub txtr_id_mapper: TextureIdMapper,
}

impl<'b> ChunkGeneratorMF<'b> {
    pub open spec fn wf(&self) -> bool {
        &&& 1 <= self.chunk_size <= MAX_CHUNK_SIZE
        &&& self.block_ind@.len() >= TERRAIN_BLOCK_COUNT
        &&& self.txtr_id_mapper.wf()
    }

    /// The texture id a block's face looking to `dir` is drawn with.
    pub open spec fn face_txtr(&self, m: TextureMapper<'b>, dir: FaceDir) -> u32 {
        self.txtr_id_mapper.spec_id(spec_face_texture(m, dir)@)
    }

    pub fn new(chunk_size: u32, block_ind: Vec<BlockData<'b>>, txtr_id_mapper: TextureIdMapper) -> (r: Self)
        ensures
            r.chunk_size == chunk_size,
            r.block_ind@ == block_ind@,
            r.txtr_id_mapper == txtr_id_mapper,
    {
        ChunkGeneratorMF { chunk_size, block_ind, txtr_id_mapper }
    }

    pub fn chunk_size(&self) -> (r: u32)
        ensures
            r == self.chunk_size,
    {
        self.chunk_size
    }

    pub fn block_ind(&self, ind: usize) -> (r: BlockData<'b>)
        requires
            ind < self.block_ind@.len(),
        ensures
            r == self.block_ind@[ind as int],
    {
        self.block_ind[ind]
    }

    /// The position of the voxel (x, y, z) in the chunk's voxel array.
    pub fn access(&self, x: u32, y: u32, z: u32) -> (r: usize)
        requires
            voxel_index(self.chunk_size as int, x as int, y as int, z as int) <= u32::MAX,
        ensures
            r == voxel_index(self.chunk_size as int, x as int, y as int, z as int),
    {
        let size = self.chunk_size;
        proof {
            let n = size as int;
            assert(0 <= (y as int) * n * n) by (nonlinear_arith)
                requires n >= 0, y >= 0;
            assert(0 <= (x as int) * n) by (nonlinear_arith)
                requires n >= 0, x >= 0;
            assert((y as int) * n <= (y as int) * n * n) by (nonlinear_arith)
                requires n >= 0, y >= 0;
            assert(0 <= (y as int) * n) by (nonlinear_arith)
                requires n >= 0, y >= 0;
        }
        (y * size * size + x * size + z) as usize
    }

    pub fn check_coord_within_chunk(&self, x: i32, y: i32, z: i32) -> (r: bool)
        ensures
            r == (self.chunk_size <= i32::MAX && in_chunk(self.chunk_size as int, x as int, y as int, z as int)),
    {
        if self.chunk_size > i32::MAX as u32 {
            return false;
        }
        let n = self.chunk_size as i32;
        0 <= x && x < n && 0 <= y && y < n && 0 <= z && z < n
    }

    /// The face of the block at `loc` looking to `face`, textured by `txtr_mapping`, with
    /// its indices offset by `ind_ofs`. The location's z is negated: the face spans z from
    /// `-loc.2` to `-loc.2 - 1`. A fluid face's top edge is lowered.
    pub fn gen_face(&self, loc: (i32, i32, i32), ind_ofs: u32, face: FaceDir, txtr_mapping: TextureMapper<'b>, fluid: bool)
        -> (r: (Vec<ChunkVertex>, Vec<u32>))
        requires
            self.txtr_id_mapper.wf(),
            loc_in_range(loc),
            ind_ofs as int + 3 <= u32::MAX,
        ensures
            r.0@ == face_vertices(loc, face, self.face_txtr(txtr_mapping, face), fluid),
            r.1@ == face_indices(face, ind_ofs as int),
    {
        let txtr = self.txtr_id_mapper.id(txtr_mapping.face(face));
        let (x, y, lz) = loc;
        let z = -lz;
        let o = ind_ofs;
        match face {
            FaceDir::FRONT => {
                let v = vec![
                    ChunkVertex { x: x + 1, y: y, z: z, lowered: false, u: 1, v: 1, txtr },
                    ChunkVertex { x: x, y: y + 1, z: z, lowered: fluid, u: 0, v: 0, txtr },
                    ChunkVertex { x: x, y: y, z: z, lowered: false, u: 0, v: 1, txtr },
                    ChunkVertex { x: x + 1, y: y + 1, z: z, lowered: fluid, u: 1, v: 0, txtr },
                ];
                let i = vec![o, o + 1, o + 2, o + 3, o + 1, o];
                assert(v@ =~= face_vertices(loc, face, txtr, fluid));
                assert(i@ =~= face_indices(face, ind_ofs as int));
                (v, i)
            },
            FaceDir::RIGHT => {
                let v = vec![
                    ChunkVertex { x: x + 1, y: y, z: z, lowered: false, u: 1, v: 1, txtr },
                    ChunkVertex { x: x + 1, y: y + 1, z: z, lowered: fluid, u: 1, v: 0, txtr },
                    ChunkVertex { x: x + 1, y: y, z: z - 1, lowered: false, u: 0, v: 1, txtr },
                    ChunkVertex { x: x + 1, y: y + 1, z: z - 1, lowered: fluid, u: 0, v: 0, txtr },
                ];
                let i = vec![o, o + 2, o + 1, o + 3, o + 1, o + 2];
                assert(v@ =~= face_vertices(loc, face, txtr, fluid));
                assert(i@ =~= face_indices(face, ind_ofs as int));
                (v, i)
            },
            FaceDir::BACK => {
                let v = vec![
                    ChunkVertex { x: x, y: y, z: z - 1, lowered: false, u: 0, v: 1, txtr },
                    ChunkVertex { x: x + 1, y: y, z: z - 1, lowered: false, u: 1, v: 1, txtr },
                    ChunkVertex { x: x, y: y + 1, z: z - 1, lowered: fluid, u: 0, v: 0, txtr },
                    ChunkVertex { x: x + 1, y: y + 1, z: z - 1, lowered: fluid, u: 1, v: 0, txtr },
                ];
                let i = vec![o + 1, o, o + 3, o + 2, o + 3, o];
                assert(v@ =~= face_vertices(loc, face, txtr, fluid));
                assert(i@ =~= face_indices(face, ind_ofs as int));
                (v, i)
            },
            FaceDir::LEFT => {
                let v = vec![
                    ChunkVertex { x: x, y: y, z: z, lowered: false, u: 1, v: 1, txtr },
                    ChunkVertex { x: x, y: y + 1, z: z, lowered: fluid, u: 1, v: 0, txtr },
                    ChunkVertex { x: x, y: y, z: z - 1, lowered: false, u: 0, v: 1, txtr },
                    ChunkVertex { x: x, y: y + 1, z: z - 1, lowered: fluid, u: 0, v: 0, txtr },
                ];
                let i = vec![o + 2, o, o + 3, o + 1, o + 3, o];
                assert(v@ =~= face_vertices(loc, face, txtr, fluid));
                assert(i@ =~= face_indices(face, ind_ofs as int));
                (v, i)
            },
            FaceDir::TOP => {
                let v = vec![
                    ChunkVertex { x: x, y: y + 1, z: z, lowered: fluid, u: 1, v: 1, txtr },
                    ChunkVertex { x: x + 1, y: y + 1, z: z, lowered: fluid, u: 0, v: 1, txtr },
                    ChunkVertex { x: x, y: y + 1, z: z - 1, lowered: fluid, u: 1, v: 0, txtr },
                    ChunkVertex { x: x + 1, y: y + 1, z: z - 1, lowered: fluid, u: 0, v: 0, txtr },
                ];
                let i = vec![o, o + 1, o + 2, o + 3, o + 2, o + 1];
                assert(v@ =~= face_vertices(loc, face, txtr, fluid));
                assert(i@ =~= face_indices(face, ind_ofs as int));
                (v, i)
            },
            FaceDir::BOTTOM => {
                let v = vec![
                    ChunkVertex { x: x, y: y, z: z, lowered: false, u: 0, v: 1, txtr },
                    ChunkVertex { x: x + 1, y: y, z: z, lowered: false, u: 1, v: 1, txtr },
                    ChunkVertex { x: x, y: y, z: z - 1, lowered: false, u: 0, v: 0, txtr },
                    ChunkVertex { x: x + 1, y: y, z: z - 1, lowered: false, u: 1, v: 0, txtr },
                ];
                let i = vec![o + 1, o, o + 3, o + 2, o + 3, o];
                assert(v@ =~= face_vertices(loc, face, txtr, fluid));
                assert(i@ =~= face_indices(face, ind_ofs as int));
                (v, i)
            },
        }
    }

    /// The two diagonal quads of a plant at `loc`, textured by the mapper's default
    /// texture, with indices offset by `ind_ofs`. As for faces, the location's z is negated.
    pub fn gen_xcross(&self, loc: (i32, i32, i32), ind_ofs: u32, txtr_mapping: TextureMapper<'b>)
        -> (r: (Vec<ChunkVertex>, Vec<u32>))
        requires
            self.txtr_id_mapper.wf(),
            loc_in_range(loc),
            ind_ofs as int + 7 <= u32::MAX,
        ensures
            r.0@ == xcross_vertices(loc, self.face_txtr(txtr_mapping, FaceDir::TOP)),
            r.1@ == xcross_indices(ind_ofs as int),
    {
        let txtr = self.txtr_id_mapper.id(txtr_mapping.default());
        let (x, y, lz) = loc;
        let z = -lz;
        let o = ind_ofs;
        let v = vec![
            ChunkVertex { x: x, y: y, z: z, lowered: false, u: 1, v: 1, txtr },
            ChunkVertex { x: x, y: y + 1, z: z, lowered: false, u: 1, v: 0, txtr },
            ChunkVertex { x: x + 1, y: y, z: z - 1, lowered: false, u: 0, v: 1, txtr },
            ChunkVertex { x: x + 1, y: y + 1, z: z - 1, lowered: false, u: 0, v: 0, txtr },
            ChunkVertex { x: x + 1, y: y, z: z, lowered: false, u: 1, v: 1, txtr },
            ChunkVertex { x: x + 1, y: y + 1, z: z, lowered: false, u: 1, v: 0, txtr },
            ChunkVertex { x: x, y: y, z: z - 1, lowered: false, u: 0, v: 1, txtr },
            ChunkVertex { x: x, y: y + 1, z: z - 1, lowered: false, u: 0, v: 0, txtr },
        ];
        let i = vec![o, o + 1, o + 2, o + 2, o + 1, o + 3, o + 4, o + 5, o + 6, o + 6, o + 5, o + 7];
        assert(v@ =~= xcross_vertices(loc, txtr));
        assert(i@ =~= xcross_indices(ind_ofs as int));
        (v, i)
    }

    /// Whether all six neighbours of the interior voxel (x, y, z) hide solid (or, for
    /// `fluid`, fluid) faces.
    fn neighbours_obscure(&self, voxel: &Vec<BlockCullType>, x: u32, y: u32, z: u32, fluid: bool) -> (r: bool)
        requires
            chunk_indexable(self.chunk_size as int),
            voxel@.len() >= self.chunk_size * self.chunk_size * self.chunk_size,
            interior(self.chunk_size as int, x as int, y as int, z as int),
        ensures
            r == if fluid {
                neighbours_obscure_fluid(voxel@, self.chunk_size as int, x as int, y as int, z as int)
            } else {
                neighbours_obscure_block(voxel@, self.chunk_size as int, x as int, y as int, z as int)
            },
    {
        let ghost n = self.chunk_size as int;
        proof {
            lemma_index_fits(n, x + 1, y as int, z as int);
            lemma_index_fits(n, x - 1, y as int, z as int);
            lemma_index_fits(n, x as int, y + 1, z as int);
            lemma_index_fits(n, x as int, y - 1, z as int);
            lemma_index_fits(n, x as int, y as int, z + 1);
            lemma_index_fits(n, x as int, y as int, z - 1);
        }
        let a = voxel[self.access(x + 1, y, z)];
        let b = voxel[self.access(x - 1, y, z)];
        let c = voxel[self.access(x, y + 1, z)];
        let d = voxel[self.access(x, y - 1, z)];
        let e = voxel[self.access(x, y, z + 1)];
        let f = voxel[self.access(x, y, z - 1)];
        if fluid {
            a.check_fluid_obscured() && b.check_fluid_obscured() && c.check_fluid_obscured()
                && d.check_fluid_obscured() && e.check_fluid_obscured() && f.check_fluid_obscured()
        } else {
            a.check_block_obscured() && b.check_block_obscured() && c.check_block_obscured()
                && d.check_block_obscured() && e.check_block_obscured() && f.check_block_obscured()
        }
    }

    /// Marks the hidden voxels of a chunk: every interior unculled solid whose six
    /// neighbours all hide solid faces becomes `Obscured`, every interior unculled fluid
    /// whose six neighbours all hide fluid faces becomes `ObscuredFluid`. Since marking
    /// changes no voxel's power to hide its neighbours, the pass decides each voxel on the
    /// chunk as it was before the pass.
    pub fn block_culling(&self, voxel: &mut Vec<BlockCullType>)
        requires
            1 <= self.chunk_size,
            chunk_indexable(self.chunk_size as int),
            old(voxel)@.len() >= self.chunk_size * self.chunk_size * self.chunk_size,
        ensures
            final(voxel)@.len() == old(voxel)@.len(),
            forall|i: int| self.chunk_size * self.chunk_size * self.chunk_size <= i < final(voxel)@.len()
                ==> #[trigger] final(voxel)@[i] == old(voxel)@[i],
            forall|x: int, y: int, z: int| in_chunk(self.chunk_size as int, x, y, z) ==>
                final(voxel)@[#[trigger] voxel_index(self.chunk_size as int, x, y, z)]
                    == culled(old(voxel)@, self.chunk_size as int, x, y, z),
    {
        let ghost old_v = voxel@;
        let ghost n = self.chunk_size as int;
        let size = self.chunk_size;
        let mut x: u32 = 1;
        while x < size - 1
            invariant
                1 <= self.chunk_size,
                chunk_indexable(self.chunk_size as int),
                size == self.chunk_size,
                n == size as int,
                1 <= x <= if size >= 2 { size - 1 } else { 1 },
                cull_state(voxel@, old_v, n, x as int, 1, 1),
            decreases size - x,
        {
            let mut y: u32 = 1;
            while y < size - 1
                invariant
                    chunk_indexable(self.chunk_size as int),
                    size == self.chunk_size,
                    n == size as int,
                    1 <= x < size - 1,
                    1 <= y <= size - 1,
                    cull_state(voxel@, old_v, n, x as int, y as int, 1),
                decreases size - y,
            {
                let mut z: u32 = 1;
                while z < size - 1
                    invariant
                        chunk_indexable(self.chunk_size as int),
                        size == self.chunk_size,
                        n == size as int,
                        1 <= x < size - 1,
                        1 <= y < size - 1,
                        1 <= z <= size - 1,
                        cull_state(voxel@, old_v, n, x as int, y as int, z as int),
                    decreases size - z,
                {
                    let ghost cur = voxel@;
                    proof {
                        self.lemma_neighbours_unchanged(cur, old_v, x as int, y as int, z as int);
                        lemma_index_fits(n, x as int, y as int, z as int);
                    }
                    let i = self.access(x, y, z);
                    proof { lemma_voxel_index_bounds(n, x as int, y as int, z as int); }
                    let b = voxel[i];
                    let nb = self.neighbours_obscure(voxel, x, y, z, false);
                    let nf = self.neighbours_obscure(voxel, x, y, z, true);
                    match b {
                        BlockCullType::BorderVisible0(_) if nb => {
                            voxel[i] = BlockCullType::Obscured;
                        },
                        BlockCullType::BorderVisibleFluid0(_) if nf => {
                            voxel[i] = BlockCullType::ObscuredFluid;
                        },
                        _ => {},
                    }
                    proof {
                        assert(voxel@[i as int] == culled(old_v, n, x as int, y as int, z as int));
                        assert forall|a: int, b: int, c: int| in_chunk(n, a, b, c) implies
                            voxel@[#[trigger] voxel_index(n, a, b, c)] == if interior(n, a, b, c) && visited_before(a, b, c, x as int, y as int, z + 1) {
                                culled(old_v, n, a, b, c)
                            } else {
                                old_v[voxel_index(n, a, b, c)]
                            } by {
                            if a == x && b == y && c == z {
                            } else {
                                lemma_voxel_index_bounds(n, a, b, c);
                                if voxel_index(n, a, b, c) == i {
                                    lemma_voxel_index_injective(n, a, b, c, x as int, y as int, z as int);
                                }
                                assert(voxel@[voxel_index(n, a, b, c)] == cur[voxel_index(n, a, b, c)]);
                            }
                        }
                        assert forall|j: int| 0 <= j < voxel@.len() implies cull_step(old_v[j], #[trigger] voxel@[j]) by {
                            if j != i {
                                assert(voxel@[j] == cur[j]);
                            }
                        }
                    }
                    z = z + 1;
                }
                proof { lemma_cull_state_next_row(voxel@, old_v, n, x as int, y as int); }
                y = y + 1;
            }
            proof { lemma_cull_state_next_layer(voxel@, old_v, n, x as int); }
            x = x + 1;
        }
        proof {
            assert forall|a: int, b: int, c: int| in_chunk(n, a, b, c) implies
                voxel@[#[trigger] voxel_index(n, a, b, c)] == culled(old_v, n, a, b, c) by {
                if !interior(n, a, b, c) {
                    assert(voxel@[voxel_index(n, a, b, c)] == old_v[voxel_index(n, a, b, c)]);
                }
            }
        }
    }

    /// While the culling pass runs, the neighbours of the voxel it visits hide faces just
    /// as they did before the pass, and the voxel itself is unchanged.
    proof fn lemma_neighbours_unchanged(&self, cur: Seq<BlockCullType>, old: Seq<BlockCullType>, x: int, y: int, z: int)
        requires
            interior(self.chunk_size as int, x, y, z),
            cull_state(cur, old, self.chunk_size as int, x, y, z),
        ensures
            cur[voxel_index(self.chunk_size as int, x, y, z)] == old[voxel_index(self.chunk_size as int, x, y, z)],
            neighbours_obscure_block(cur, self.chunk_size as int, x, y, z) == neighbours_obscure_block(old, self.chunk_size as int, x, y, z),
            neighbours_obscure_fluid(cur, self.chunk_size as int, x, y, z) == neighbours_obscure_fluid(old, self.chunk_size as int, x, y, z),
    {
        let n = self.chunk_size as int;
        assert(cur[voxel_index(n, x, y, z)] == old[voxel_index(n, x, y, z)]);
        lemma_voxel_index_bounds(n, x + 1, y, z);
        lemma_voxel_index_bounds(n, x - 1, y, z);
        lemma_voxel_index_bounds(n, x, y + 1, z);
        lemma_voxel_index_bounds(n, x, y - 1, z);
        lemma_voxel_index_bounds(n, x, y, z + 1);
        lemma_voxel_index_bounds(n, x, y, z - 1);
        assert(cull_step(old[voxel_index(n, x + 1, y, z)], cur[voxel_index(n, x + 1, y, z)]));
        assert(cull_step(old[voxel_index(n, x - 1, y, z)], cur[voxel_index(n, x - 1, y, z)]));
        assert(cull_step(old[voxel_index(n, x, y + 1, z)], cur[voxel_index(n, x, y + 1, z)]));
        assert(cull_step(old[voxel_index(n, x, y - 1, z)], cur[voxel_index(n, x, y - 1, z)]));
        assert(cull_step(old[voxel_index(n, x, y, z + 1)], cur[voxel_index(n, x, y, z + 1)]));
        assert(cull_step(old[voxel_index(n, x, y, z - 1)], cur[voxel_index(n, x, y, z - 1)]));
    }
}

proof fn lemma_cull_state_next_row(cur: Seq<BlockCullType>, old: Seq<BlockCullType>, n: int, x: int, y: int)
    requires
        n >= 2,
        cull_state(cur, old, n, x, y, n - 1),
    ensures
        cull_state(cur, old, n, x, y + 1, 1),
{
    assert forall|a: int, b: int, c: int| in_chunk(n, a, b, c) implies
        cur[#[trigger] voxel_index(n, a, b, c)] == if interior(n, a, b, c) && visited_before(a, b, c, x, y + 1, 1) {
            culled(old, n, a, b, c)
        } else {
            old[voxel_index(n, a, b, c)]
        } by {
        assert(interior(n, a, b, c) ==> (visited_before(a, b, c, x, y + 1, 1) == visited_before(a, b, c, x, y, n - 1)));
    }
}

proof fn lemma_cull_state_next_layer(cur: Seq<BlockCullType>, old: Seq<BlockCullType>, n: int, x: int)
    requires
        n >= 2,
        cull_state(cur, old, n, x, n - 1, 1),
    ensures
        cull_state(cur, old, n, x + 1, 1, 1),
{
    assert forall|a: int, b: int, c: int| in_chunk(n, a, b, c) implies
        cur[#[trigger] voxel_index(n, a, b, c)] == if interior(n, a, b, c) && visited_before(a, b, c, x + 1, 1, 1) {
            culled(old, n, a, b, c)
        } else {
            old[voxel_index(n, a, b, c)]
        } by {
        assert(interior(n, a, b, c) ==> (visited_before(a, b, c, x + 1, 1, 1) == visited_before(a, b, c, x, n - 1, 1)));
    }
}

} // verus!
