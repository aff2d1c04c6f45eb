//! Chunk bookkeeping around the player: chunk coordinates, neighbour links, and which
//! chunks are loaded and visible as the player moves.
use vstd::prelude::*;
use crate::block::{FaceDir, RenderDataPurpose};
use crate::mesh_util::{ChunkGeneratorMF, ChunkVertex};
use crate::chunk_gen_mf::{aggregates, chunk_meshes_wf, lemma_wf_aggregate_fits, chunks_verts, lemma_chunks_verts_mono, lemma_parts_verts_mono, mesh_wf, parts_verts};

verus! {

/// A point of the world, in blocks.
#[derive(Copy, Clone, Debug, PartialEq, Eq, Structural)]
pub struct Length3D {
    pub x: i64,
    pub y: i64,
    pub z: i64,
}

impl Length3D {
    pub fn new(x: i64, y: i64, z: i64) -> (r: Self)
        ensures
            r == (Length3D { x, y, z }),
    {
        Length3D { x, y, z }
    }

    pub fn origin() -> (r: Self)
        ensures
            r == (Length3D { x: 0, y: 0, z: 0 }),
    {
        Length3D { x: 0, y: 0, z: 0 }
    }
}

/// `a / m` rounded down.
pub open spec fn floor_div(a: int, m: int) -> int {
    a / m
}

/// `a / m` rounded down, for a positive `m`.
pub fn floor_div_exec(a: i64, m: i64) -> (r: i64)
    requires
        m >= 1,
    ensures
        r == floor_div(a as int, m as int),
{
    if a >= 0 {
        a / m
    } else {
        let q = (-(a + 1)) / m;
        proof {
            let na = -(a + 1);
            vstd::arithmetic::div_mod::lemma_fundamental_div_mod(na as int, m as int);
            vstd::arithmetic::div_mod::lemma_mod_bound(na as int, m as int);
            let r = na % (m as int);
            assert(a == (-q - 1) * m + (m - 1 - r)) by (nonlinear_arith)
                requires
                    na == m * q + r,
                    a == -na - 1,
            ;
            vstd::arithmetic::div_mod::lemma_fundamental_div_mod_converse(a as int, m as int, -q - 1, m - 1 - r);
        }
        -q - 1
    }
}

/// A chunk's coordinates: a point of the world divided by the chunk size, rounded down.
#[derive(Copy, Clone, Debug, PartialEq, Eq, Structural)]
pub struct Position {
    pub x: isize,
    pub y: isize,
    pub z: isize,
}

/// The largest chunk coordinate, on any axis.
pub const MAX_POSITION: isize = 0x3fff_ffff;

pub open spec fn position_in_range(p: Position) -> bool {
    &&& -MAX_POSITION <= p.x <= MAX_POSITION
    &&& -MAX_POSITION <= p.y <= MAX_POSITION
    &&& -MAX_POSITION <= p.z <= MAX_POSITION
}

/// The chunk coordinates of the point `l`, for chunks of `size` blocks.
pub open spec fn spec_position_of(l: Length3D, size: int) -> Position {
    Position {
        x: floor_div(l.x as int, size) as isize,
        y: floor_div(l.y as int, size) as isize,
        z: floor_div(l.z as int, size) as isize,
    }
}

/// The neighbour of a chunk on the side `d`.
pub open spec fn neighbour(p: Position, d: FaceDir) -> Position {
    match d {
        FaceDir::TOP => Position { x: p.x, y: (p.y + 1) as isize, z: p.z },
        FaceDir::BOTTOM => Position { x: p.x, y: (p.y - 1) as isize, z: p.z },
        FaceDir::LEFT => Position { x: (p.x - 1) as isize, y: p.y, z: p.z },
        FaceDir::RIGHT => Position { x: (p.x + 1) as isize, y: p.y, z: p.z },
        FaceDir::FRONT => Position { x: p.x, y: p.y, z: (p.z + 1) as isize },
        FaceDir::BACK => Position { x: p.x, y: p.y, z: (p.z - 1) as isize },
    }
}

/// Whether the neighbour of `p` on the side `d` has representable coordinates.
pub open spec fn can_step(p: Position, d: FaceDir) -> bool {
    match d {
        FaceDir::TOP => p.y < isize::MAX,
        FaceDir::BOTTOM => p.y > isize::MIN,
        FaceDir::LEFT => p.x > isize::MIN,
        FaceDir::RIGHT => p.x < isize::MAX,
        FaceDir::FRONT => p.z < isize::MAX,
        FaceDir::BACK => p.z > isize::MIN,
    }
}

/// The side opposite `d`.
pub open spec fn opposite(d: FaceDir) -> FaceDir {
    match d {
        FaceDir::TOP => FaceDir::BOTTOM,
        FaceDir::BOTTOM => FaceDir::TOP,
        FaceDir::LEFT => FaceDir::RIGHT,
        FaceDir::RIGHT => FaceDir::LEFT,
        FaceDir::FRONT => FaceDir::BACK,
        FaceDir::BACK => FaceDir::FRONT,
    }
}

impl Position {
    /// The chunk coordinates of the point `l`, for chunks of `size` blocks.
    pub fn from_length(l: Length3D, size: i64) -> (r: Self)
        requires
            size >= 1,
            -MAX_POSITION <= l.x <= MAX_POSITION,
            -MAX_POSITION <= l.y <= MAX_POSITION,
            -MAX_POSITION <= l.z <= MAX_POSITION,
        ensures
            r == spec_position_of(l, size as int),
            position_in_range(r),
    {
        proof {
            lemma_floor_div_bounds(l.x as int, size as int);
            lemma_floor_div_bounds(l.y as int, size as int);
            lemma_floor_div_bounds(l.z as int, size as int);
        }
        Position {
            x: floor_div_exec(l.x, size) as isize,
            y: floor_div_exec(l.y, size) as isize,
            z: floor_div_exec(l.z, size) as isize,
        }
    }

    pub fn top(self) -> (r: Self)
        requires
            self.y < isize::MAX,
        ensures
            r == neighbour(self, FaceDir::TOP),
    {
        Position { x: self.x, y: self.y + 1, z: self.z }
    }

    pub fn bottom(self) -> (r: Self)
        requires
            self.y > isize::MIN,
        ensures
            r == neighbour(self, FaceDir::BOTTOM),
    {
        Position { x: self.x, y: self.y - 1, z: self.z }
    }

    pub fn left(self) -> (r: Self)
        requires
            self.x > isize::MIN,
        ensures
            r == neighbour(self, FaceDir::LEFT),
    {
        Position { x: self.x - 1, y: self.y, z: self.z }
    }

    pub fn right(self) -> (r: Self)
        requires
            self.x < isize::MAX,
        ensures
            r == neighbour(self, FaceDir::RIGHT),
    {
        Position { x: self.x + 1, y: self.y, z: self.z }
    }

    pub fn front(self) -> (r: Self)
        requires
            self.z < isize::MAX,
        ensures
            r == neighbour(self, FaceDir::FRONT),
    {
        Position { x: self.x, y: self.y, z: self.z + 1 }
    }

    pub fn back(self) -> (r: Self)
        requires
            self.z > isize::MIN,
        ensures
            r == neighbour(self, FaceDir::BACK),
    {
        Position { x: self.x, y: self.y, z: self.z - 1 }
    }

    /// The neighbour on the side `d`.
    pub fn neighbour(self, d: FaceDir) -> (r: Self)
        requires
            can_step(self, d),
        ensures
            r == neighbour(self, d),
    {
        match d {
            FaceDir::TOP => self.top(),
            FaceDir::BOTTOM => self.bottom(),
            FaceDir::LEFT => self.left(),
            FaceDir::RIGHT => self.right(),
            FaceDir::FRONT => self.front(),
            FaceDir::BACK => self.back(),
        }
    }
}

pub proof fn lemma_floor_div_bounds(a: int, m: int)
    requires
        m >= 1,
        -MAX_POSITION <= a <= MAX_POSITION,
    ensures
        -MAX_POSITION <= floor_div(a, m) <= MAX_POSITION,
{
    vstd::arithmetic::div_mod::lemma_fundamental_div_mod(a, m);
    vstd::arithmetic::div_mod::lemma_mod_bound(a, m);
    let q = a / m;
    let r = a % m;
    assert(-MAX_POSITION <= q <= MAX_POSITION) by (nonlinear_arith)
        requires
            a == m * q + r,
            0 <= r < m,
            m >= 1,
            -MAX_POSITION <= a <= MAX_POSITION,
    ;
}

/// The loaded neighbours of a chunk, one per side.
#[derive(Copy, Clone, Debug)]
pub struct ChunkAdjacency {
    pub top: Option<Position>,
    pub bottom: Option<Position>,
    pub left: Option<Position>,
    pub right: Option<Position>,
    pub front: Option<Position>,
    pub back: Option<Position>,
}

/// The link of an adjacency record on the side `d`.
pub open spec fn adjacent(a: ChunkAdjacency, d: FaceDir) -> Option<Position> {
    match d {
        FaceDir::TOP => a.top,
        FaceDir::BOTTOM => a.bottom,
        FaceDir::LEFT => a.left,
        FaceDir::RIGHT => a.right,
        FaceDir::FRONT => a.front,
        FaceDir::BACK => a.back,
    }
}

/// `a` with its link on the side `d` set to `p`.
pub open spec fn set_adjacent(a: ChunkAdjacency, d: FaceDir, p: Option<Position>) -> ChunkAdjacency {
    match d {
        FaceDir::TOP => ChunkAdjacency { top: p, ..a },
        FaceDir::BOTTOM => ChunkAdjacency { bottom: p, ..a },
        FaceDir::LEFT => ChunkAdjacency { left: p, ..a },
        FaceDir::RIGHT => ChunkAdjacency { right: p, ..a },
        FaceDir::FRONT => ChunkAdjacency { front: p, ..a },
        FaceDir::BACK => ChunkAdjacency { back: p, ..a },
    }
}

impl ChunkAdjacency {
    pub fn default() -> (r: Self)
        ensures
            forall|d: FaceDir| adjacent(r, d) is None,
    {
        ChunkAdjacency { top: None, bottom: None, left: None, right: None, front: None, back: None }
    }

    /// The link on the side `d`.
    pub fn get(&self, d: FaceDir) -> (r: Option<Position>)
        ensures
            r == adjacent(*self, d),
    {
        match d {
            FaceDir::TOP => self.top,
            FaceDir::BOTTOM => self.bottom,
            FaceDir::LEFT => self.left,
            FaceDir::RIGHT => self.right,
            FaceDir::FRONT => self.front,
            FaceDir::BACK => self.back,
        }
    }

    /// Links the side `d` to `p`.
    pub fn set(&mut self, d: FaceDir, p: Position)
        ensures
            *final(self) == set_adjacent(*old(self), d, Some(p)),
    {
        match d {
            FaceDir::TOP => { self.top = Some(p); },
            FaceDir::BOTTOM => { self.bottom = Some(p); },
            FaceDir::LEFT => { self.left = Some(p); },
            FaceDir::RIGHT => { self.right = Some(p); },
            FaceDir::FRONT => { self.front = Some(p); },
            FaceDir::BACK => { self.back = Some(p); },
        }
    }
}

/// One part of a chunk's mesh: vertices, indices, the direction its faces look to (if they
/// share one) and what it is drawn as.
pub type MeshPart = (Vec<ChunkVertex>, Vec<u32>, Option<FaceDir>, RenderDataPurpose);

/// A loaded chunk: its corner, its coordinates, its loaded neighbours, its mesh, and
/// whether it is drawn.
pub struct Chunk {
    /// south-west corner of the chunk
    pub pos: Length3D,
    pub hash_pos: Position,
    pub adjacency: ChunkAdjacency,
    pub mesh: Vec<MeshPart>,
    pub visible: bool,
}

impl Chunk {
    pub fn new(pos: Length3D, hash_pos: Position, init_adjs: ChunkAdjacency, mesh: Vec<MeshPart>) -> (r: Self)
        ensures
            r.pos == pos,
            r.hash_pos == hash_pos,
            r.adjacency == init_adjs,
            r.mesh == mesh,
            r.visible,
    {
        Chunk { pos, hash_pos, adjacency: init_adjs, mesh, visible: true }
    }

    pub fn visible(&self) -> (r: bool)
        ensures
            r == self.visible,
    {
        self.visible
    }
}

/// A border radius and an update radius, in chunks.
#[derive(Copy, Clone, Debug, PartialEq, Eq, Structural)]
pub struct ChunkRadius(pub u32, pub u32);

/// Why the chunks around the player are updated: the player moved, or the update is forced.
#[derive(Copy, Clone, Debug, PartialEq, Eq, Structural)]
pub enum UpdateChunk {
    NewPos(Length3D),
    Forced,
}

/// The largest distance of a loaded chunk's corner from the world origin, in blocks.
pub const MAX_CHUNK_POS: i64 = 0x400_0000;

/// A chunk with the coordinates `k` is loaded.
pub open spec fn has_key(chunks: Seq<Chunk>, k: Position) -> bool {
    exists|j: int| 0 <= j < chunks.len() && (#[trigger] chunks[j]).hash_pos == k
}

/// The link a chunk with the coordinates `k` has on the side `d`: its neighbour there, if
/// loaded.
pub open spec fn expected_link(chunks: Seq<Chunk>, k: Position, d: FaceDir) -> Option<Position> {
    if has_key(chunks, neighbour(k, d)) {
        Some(neighbour(k, d))
    } else {
        None
    }
}

/// Chunk coordinates far inside the range of `isize`.
pub open spec fn key_small(k: Position) -> bool {
    &&& -(MAX_CHUNK_POS as int) <= k.x <= MAX_CHUNK_POS
    &&& -(MAX_CHUNK_POS as int) <= k.y <= MAX_CHUNK_POS
    &&& -(MAX_CHUNK_POS as int) <= k.z <= MAX_CHUNK_POS
}

/// `a` after linking, side by side, the chunk `k0` with a new chunk `k` where `k0` is
/// `k`'s neighbour.
pub open spec fn link_step(a: ChunkAdjacency, k0: Position, k: Position, d: FaceDir) -> ChunkAdjacency {
    if k0 == neighbour(k, d) {
        set_adjacent(a, opposite(d), Some(k))
    } else {
        a
    }
}

pub open spec fn link_all(a: ChunkAdjacency, k0: Position, k: Position) -> ChunkAdjacency {
    link_step(link_step(link_step(link_step(link_step(link_step(a, k0, k, FaceDir::TOP), k0, k, FaceDir::BOTTOM),
        k0, k, FaceDir::LEFT), k0, k, FaceDir::RIGHT), k0, k, FaceDir::FRONT), k0, k, FaceDir::BACK)
}

pub open spec fn length_in_range(l: Length3D, bound: int) -> bool {
    &&& -bound <= l.x <= bound
    &&& -bound <= l.y <= bound
    &&& -bound <= l.z <= bound
}

/// The loaded chunks of chunks `size` blocks a side: no two share coordinates, each
/// chunk's coordinates are those of its corner, and each chunk links exactly its loaded
/// neighbours.
pub open spec fn chunk_set_wf(chunks: Seq<Chunk>, size: int) -> bool {
    &&& forall|i: int, j: int| 0 <= i < chunks.len() && 0 <= j < chunks.len() && i != j ==>
        (#[trigger] chunks[i]).hash_pos != (#[trigger] chunks[j]).hash_pos
    &&& forall|i: int| 0 <= i < chunks.len() ==> {
        &&& length_in_range((#[trigger] chunks[i]).pos, MAX_CHUNK_POS as int)
        &&& chunks[i].hash_pos == spec_position_of(chunks[i].pos, size)
        &&& key_small(chunks[i].hash_pos)
    }
    &&& forall|i: int, d: FaceDir| 0 <= i < chunks.len() ==>
        #[trigger] adjacent(chunks[i].adjacency, d) == expected_link(chunks, chunks[i].hash_pos, d)
}

pub proof fn lemma_neighbour_opposite(k: Position, d: FaceDir)
    requires
        key_small(k),
    ensures
        neighbour(neighbour(k, d), opposite(d)) == k,
        forall|a: Position| key_small(a) ==> (neighbour(a, opposite(d)) == k <==> a == neighbour(k, d)),
        forall|d2: FaceDir| d2 != d ==> neighbour(k, d2) != neighbour(k, d),
{
}

/// Finds the loaded chunk with the coordinates `k`.
pub fn find_chunk(chunks: &Vec<Chunk>, k: Position) -> (r: Option<usize>)
    ensures
        r matches Some(i) ==> i < chunks@.len() && chunks@[i as int].hash_pos == k,
        r is None ==> !has_key(chunks@, k),
{
    let mut i: usize = 0;
    while i < chunks.len()
        invariant
            i <= chunks@.len(),
            forall|j: int| 0 <= j < i ==> (#[trigger] chunks@[j]).hash_pos != k,
        decreases chunks@.len() - i,
    {
        if chunks[i].hash_pos == k {
            return Some(i);
        }
        i = i + 1;
    }
    None
}

/// Links the chunk with the coordinates `k`, about to be loaded, with its neighbour on the
/// side `d`, if that one is loaded: each records the other.
fn link_neighbour(chunks: &mut Vec<Chunk>, adj: &mut ChunkAdjacency, k: Position, d: FaceDir)
    requires
        key_small(k),
        forall|i: int, j: int| 0 <= i < old(chunks)@.len() && 0 <= j < old(chunks)@.len() && i != j ==>
            (#[trigger] old(chunks)@[i]).hash_pos != (#[trigger] old(chunks)@[j]).hash_pos,
    ensures
        final(chunks)@.len() == old(chunks)@.len(),
        forall|i: int| 0 <= i < final(chunks)@.len() ==> {
            &&& (#[trigger] final(chunks)@[i]).pos == old(chunks)@[i].pos
            &&& final(chunks)@[i].hash_pos == old(chunks)@[i].hash_pos
            &&& final(chunks)@[i].mesh == old(chunks)@[i].mesh
            &&& final(chunks)@[i].visible == old(chunks)@[i].visible
            &&& final(chunks)@[i].adjacency == if old(chunks)@[i].hash_pos == neighbour(k, d) {
                set_adjacent(old(chunks)@[i].adjacency, opposite(d), Some(k))
            } else {
                old(chunks)@[i].adjacency
            }
        },
        *final(adj) == if has_key(old(chunks)@, neighbour(k, d)) {
            set_adjacent(*old(adj), d, Some(neighbour(k, d)))
        } else {
            *old(adj)
        },
{
    let nb = k.neighbour(d);
    match find_chunk(chunks, nb) {
        Some(j) => {
            adj.set(d, chunks[j].hash_pos);
            let mut a = chunks[j].adjacency;
            a.set(match d {
                FaceDir::TOP => FaceDir::BOTTOM,
                FaceDir::BOTTOM => FaceDir::TOP,
                FaceDir::LEFT => FaceDir::RIGHT,
                FaceDir::RIGHT => FaceDir::LEFT,
                FaceDir::FRONT => FaceDir::BACK,
                FaceDir::BACK => FaceDir::FRONT,
            }, k);
            chunks[j].adjacency = a;
        },
        None => {},
    }
}

/// Loads the chunk with its corner at `pos` and the mesh `mesh`, visible, and links it
/// with its loaded neighbours both ways.
#[verifier::rlimit(50)]
pub fn load_chunk_into(chunks: &mut Vec<Chunk>, size: i64, pos: Length3D, mesh: Vec<MeshPart>)
    requires
        1 <= size,
        chunk_set_wf(old(chunks)@, size as int),
        length_in_range(pos, MAX_CHUNK_POS as int),
        !has_key(old(chunks)@, spec_position_of(pos, size as int)),
    ensures
        chunk_set_wf(final(chunks)@, size as int),
        final(chunks)@.len() == old(chunks)@.len() + 1,
        forall|i: int| 0 <= i < old(chunks)@.len() ==> {
            &&& (#[trigger] final(chunks)@[i]).pos == old(chunks)@[i].pos
            &&& final(chunks)@[i].hash_pos == old(chunks)@[i].hash_pos
            &&& final(chunks)@[i].mesh == old(chunks)@[i].mesh
            &&& final(chunks)@[i].visible == old(chunks)@[i].visible
        },
        final(chunks)@.last().pos == pos,
        final(chunks)@.last().hash_pos == spec_position_of(pos, size as int),
        final(chunks)@.last().mesh == mesh,
        final(chunks)@.last().visible,
        forall|q: Position| has_key(final(chunks)@, q) == (has_key(old(chunks)@, q) || q == spec_position_of(pos, size as int)),
{
    let ghost old_chunks = chunks@;
    let hash_pos = Position::from_length(pos, size);
    proof {
        lemma_floor_div_small(pos.x as int, size as int);
        lemma_floor_div_small(pos.y as int, size as int);
        lemma_floor_div_small(pos.z as int, size as int);
    }
    let mut adj = ChunkAdjacency::default();
    let ghost c0 = chunks@;
    link_neighbour(chunks, &mut adj, hash_pos, FaceDir::TOP);
    let ghost c1 = chunks@;
    link_neighbour(chunks, &mut adj, hash_pos, FaceDir::BOTTOM);
    let ghost c2 = chunks@;
    link_neighbour(chunks, &mut adj, hash_pos, FaceDir::LEFT);
    let ghost c3 = chunks@;
    link_neighbour(chunks, &mut adj, hash_pos, FaceDir::RIGHT);
    let ghost c4 = chunks@;
    link_neighbour(chunks, &mut adj, hash_pos, FaceDir::FRONT);
    let ghost c5 = chunks@;
    link_neighbour(chunks, &mut adj, hash_pos, FaceDir::BACK);
    let ghost linked = chunks@;
    chunks.push(Chunk::new(pos, hash_pos, adj, mesh));
    proof {
        let n = old_chunks.len();
        let cs = chunks@;
        assert forall|i: int| 0 <= i < n implies {
            &&& (#[trigger] cs[i]).hash_pos == old_chunks[i].hash_pos
            &&& cs[i].pos == old_chunks[i].pos
            &&& cs[i].mesh == old_chunks[i].mesh
            &&& cs[i].visible == old_chunks[i].visible
            &&& cs[i].adjacency == link_all(old_chunks[i].adjacency, old_chunks[i].hash_pos, hash_pos)
        } by {
            assert(cs[i] == linked[i]);
            assert(c1[i].hash_pos == old_chunks[i].hash_pos);
            assert(c2[i].hash_pos == old_chunks[i].hash_pos);
            assert(c3[i].hash_pos == old_chunks[i].hash_pos);
            assert(c4[i].hash_pos == old_chunks[i].hash_pos);
            assert(c5[i].hash_pos == old_chunks[i].hash_pos);
        }
        assert forall|q: Position| has_key(cs, q) <==> (has_key(old_chunks, q) || q == hash_pos) by {
            if has_key(old_chunks, q) {
                let j = choose|j: int| 0 <= j < old_chunks.len() && (#[trigger] old_chunks[j]).hash_pos == q;
                assert(cs[j].hash_pos == q);
            }
            if q == hash_pos {
                assert(cs[n as int].hash_pos == q);
            }
            if has_key(cs, q) {
                let j = choose|j: int| 0 <= j < cs.len() && (#[trigger] cs[j]).hash_pos == q;
                if j < n {
                    assert(old_chunks[j].hash_pos == q);
                }
            }
        }
        assert(has_key(c0, neighbour(hash_pos, FaceDir::TOP)) == has_key(old_chunks, neighbour(hash_pos, FaceDir::TOP)));
        assert forall|q: Position| has_key(c1, q) == has_key(old_chunks, q) by {
            if has_key(c1, q) { let j = choose|j: int| 0 <= j < c1.len() && (#[trigger] c1[j]).hash_pos == q; assert(old_chunks[j].hash_pos == q); }
            if has_key(old_chunks, q) { let j = choose|j: int| 0 <= j < old_chunks.len() && (#[trigger] old_chunks[j]).hash_pos == q; assert(c1[j].hash_pos == q); }
        }
        assert forall|q: Position| has_key(c2, q) == has_key(old_chunks, q) by {
            if has_key(c2, q) { let j = choose|j: int| 0 <= j < c2.len() && (#[trigger] c2[j]).hash_pos == q; assert(c1[j].hash_pos == q); }
            if has_key(c1, q) { let j = choose|j: int| 0 <= j < c1.len() && (#[trigger] c1[j]).hash_pos == q; assert(c2[j].hash_pos == q); }
        }
        assert forall|q: Position| has_key(c3, q) == has_key(old_chunks, q) by {
            if has_key(c3, q) { let j = choose|j: int| 0 <= j < c3.len() && (#[trigger] c3[j]).hash_pos == q; assert(c2[j].hash_pos == q); }
            if has_key(c2, q) { let j = choose|j: int| 0 <= j < c2.len() && (#[trigger] c2[j]).hash_pos == q; assert(c3[j].hash_pos == q); }
        }
        assert forall|q: Position| has_key(c4, q) == has_key(old_chunks, q) by {
            if has_key(c4, q) { let j = choose|j: int| 0 <= j < c4.len() && (#[trigger] c4[j]).hash_pos == q; assert(c3[j].hash_pos == q); }
            if has_key(c3, q) { let j = choose|j: int| 0 <= j < c3.len() && (#[trigger] c3[j]).hash_pos == q; assert(c4[j].hash_pos == q); }
        }
        assert forall|q: Position| has_key(c5, q) == has_key(old_chunks, q) by {
            if has_key(c5, q) { let j = choose|j: int| 0 <= j < c5.len() && (#[trigger] c5[j]).hash_pos == q; assert(c4[j].hash_pos == q); }
            if has_key(c4, q) { let j = choose|j: int| 0 <= j < c4.len() && (#[trigger] c4[j]).hash_pos == q; assert(c5[j].hash_pos == q); }
        }
        assert forall|i: int, j: int| 0 <= i < cs.len() && 0 <= j < cs.len() && i != j implies
            (#[trigger] cs[i]).hash_pos != (#[trigger] cs[j]).hash_pos by {
            if i == n {
                assert(cs[j].hash_pos == old_chunks[j].hash_pos);
            } else if j == n {
                assert(cs[i].hash_pos == old_chunks[i].hash_pos);
            } else {
                assert(cs[i].hash_pos == old_chunks[i].hash_pos);
                assert(cs[j].hash_pos == old_chunks[j].hash_pos);
            }
        }
        lemma_neighbour_opposite(hash_pos, FaceDir::TOP);
        lemma_neighbour_opposite(hash_pos, FaceDir::BOTTOM);
        lemma_neighbour_opposite(hash_pos, FaceDir::LEFT);
        lemma_neighbour_opposite(hash_pos, FaceDir::RIGHT);
        lemma_neighbour_opposite(hash_pos, FaceDir::FRONT);
        lemma_neighbour_opposite(hash_pos, FaceDir::BACK);
        assert forall|d: FaceDir| #[trigger] adjacent(adj, d) == expected_link(old_chunks, hash_pos, d) by {}
        assert forall|i: int, d: FaceDir| 0 <= i < cs.len() implies
            #[trigger] adjacent(cs[i].adjacency, d) == expected_link(cs, cs[i].hash_pos, d) by {
            if i == n {
                assert(has_key(cs, neighbour(hash_pos, d)) == has_key(old_chunks, neighbour(hash_pos, d)));
            } else {
                let k0 = old_chunks[i].hash_pos;
                assert(adjacent(old_chunks[i].adjacency, d) == expected_link(old_chunks, k0, d));
                lemma_neighbour_opposite(k0, d);
                lemma_link_all(old_chunks[i].adjacency, k0, hash_pos, d);
            }
        }
        assert forall|i: int| 0 <= i < cs.len() implies {
            &&& length_in_range((#[trigger] cs[i]).pos, MAX_CHUNK_POS as int)
            &&& cs[i].hash_pos == spec_position_of(cs[i].pos, size as int)
            &&& key_small(cs[i].hash_pos)
        } by {
        }
    }
}

/// After linking, the chunk `k0` links the new chunk `k` on the side `d` exactly when `k`
/// is its neighbour there; its other links stay.
pub proof fn lemma_link_all(a: ChunkAdjacency, k0: Position, k: Position, d: FaceDir)
    requires
        key_small(k0),
        key_small(k),
    ensures
        adjacent(link_all(a, k0, k), d) == if neighbour(k0, d) == k { Some(k) } else { adjacent(a, d) },
{
    lemma_neighbour_opposite(k, FaceDir::TOP);
    lemma_neighbour_opposite(k, FaceDir::BOTTOM);
    lemma_neighbour_opposite(k, FaceDir::LEFT);
    lemma_neighbour_opposite(k, FaceDir::RIGHT);
    lemma_neighbour_opposite(k, FaceDir::FRONT);
    lemma_neighbour_opposite(k, FaceDir::BACK);
    lemma_neighbour_opposite(k0, d);
}

pub proof fn lemma_floor_div_small(a: int, m: int)
    requires
        m >= 1,
        -(MAX_CHUNK_POS as int) <= a <= MAX_CHUNK_POS,
    ensures
        -(MAX_CHUNK_POS as int) <= floor_div(a, m) <= MAX_CHUNK_POS,
{
    vstd::arithmetic::div_mod::lemma_fundamental_div_mod(a, m);
    vstd::arithmetic::div_mod::lemma_mod_bound(a, m);
    let q = a / m;
    let r = a % m;
    assert(-(MAX_CHUNK_POS as int) <= q <= MAX_CHUNK_POS) by (nonlinear_arith)
        requires
            a == m * q + r,
            0 <= r < m,
            m >= 1,
            -(MAX_CHUNK_POS as int) <= a <= MAX_CHUNK_POS,
    ;
}


/// The largest chunk size and border unit, in blocks.
pub const MAX_UNIT: i64 = 0x1_0000;

/// The largest border radius, in border units. With the largest border unit, a border
/// radius reaches `MAX_WORLD` blocks, as far as a single-precision coordinate tells blocks
/// apart.
pub const MAX_RADIUS: u32 = 256;

/// The largest distance of the player from the world origin, in blocks: past it a
/// single-precision coordinate no longer tells blocks apart.
pub const MAX_WORLD: i64 = 0x100_0000;

/// The largest distance of a chunk mesh's centres from the world origin, in blocks.
pub const MAX_CENTRAL: i64 = 0x200_0000;

/// One axis of a centre after the player moved to `p` on that axis: a unit `m` toward
/// the player when the player's position, rounded down to the unit, is more than `r`
/// units behind the centre, or ahead of it by more than `r - 1` chunks of `b` blocks;
/// and whether it moved.
pub open spec fn axis_step(c: int, p: int, r: int, m: int, b: int) -> (int, bool) {
    let fm = floor_div(p, m) * m;
    if fm < c - r * m {
        (c - m, true)
    } else if c + (r - 1) * b < fm {
        (c + m, true)
    } else {
        (c, false)
    }
}

/// A centre after the player moved to `p`, each axis by [`axis_step`], and whether any
/// axis moved.
pub open spec fn center_step(c: Length3D, p: Length3D, r: int, m: int, b: int) -> (Length3D, bool) {
    let x = axis_step(c.x as int, p.x as int, r, m, b);
    let y = axis_step(c.y as int, p.y as int, r, m, b);
    let z = axis_step(c.z as int, p.z as int, r, m, b);
    (Length3D { x: x.0 as i64, y: y.0 as i64, z: z.0 as i64 }, x.1 || y.1 || z.1)
}

/// A chunk's corner `e` lies inside the radius `r` (in chunks of `b` blocks) around the
/// centre `c`, on one axis; with no radius, nothing does.
pub open spec fn inside_radius(c: int, e: int, r: Option<u32>, b: int) -> bool {
    match r {
        Some(r) => c - (r + 1) * b < e && e < c + r * b,
        None => false,
    }
}

/// A chunk's corner `e` lies inside the radius `r` around the centre `c` on all three axes.
pub open spec fn inside_all(c: Length3D, e: Length3D, r: Option<u32>, b: int) -> bool {
    &&& inside_radius(c.x as int, e.x as int, r, b)
    &&& inside_radius(c.y as int, e.y as int, r, b)
    &&& inside_radius(c.z as int, e.z as int, r, b)
}

proof fn lemma_axis_step_bounds(c: int, p: int, r: int, m: int, b: int)
    requires
        -(MAX_CENTRAL as int) <= c <= MAX_CENTRAL,
        -(MAX_WORLD as int) <= p <= MAX_WORLD,
        0 <= r,
        1 <= m <= MAX_UNIT,
        1 <= b <= MAX_UNIT,
    ensures
        -(MAX_CENTRAL as int) <= axis_step(c, p, r, m, b).0 <= MAX_CENTRAL,
        p - m < floor_div(p, m) * m <= p,
{
    vstd::arithmetic::div_mod::lemma_fundamental_div_mod(p, m);
    vstd::arithmetic::div_mod::lemma_mod_bound(p, m);
    assert(0 <= r * m) by (nonlinear_arith)
        requires
            0 <= r,
            1 <= m,
    ;
    assert(-b <= (r - 1) * b) by (nonlinear_arith)
        requires
            0 <= r,
            1 <= b,
    ;
    assert(floor_div(p, m) * m == m * (p / m)) by (nonlinear_arith);
}

/// Moves one axis of a centre toward the player at `p`, as [`axis_step`] says; returns
/// whether it moved.
pub fn check_and_update_axis(central_chunk_axis: &mut i64, new_point_axis: i64, update_radius: u32, m: i64, b: i64) -> (r: bool)
    requires
        -MAX_CENTRAL <= *old(central_chunk_axis) <= MAX_CENTRAL,
        -MAX_WORLD <= new_point_axis <= MAX_WORLD,
        1 <= m <= MAX_UNIT,
        1 <= b <= MAX_UNIT,
    ensures
        (*final(central_chunk_axis) as int, r)
            == axis_step(*old(central_chunk_axis) as int, new_point_axis as int, update_radius as int, m as int, b as int),
        -MAX_CENTRAL <= *final(central_chunk_axis) <= MAX_CENTRAL,
{
    proof {
        lemma_axis_step_bounds(*central_chunk_axis as int, new_point_axis as int, update_radius as int, m as int, b as int);
        assert((update_radius as int) * (m as int) <= 0x1_0000_0000 * 0x1_0000) by (nonlinear_arith)
            requires
                0 <= update_radius <= u32::MAX,
                1 <= m <= MAX_UNIT,
        ;
        assert((update_radius as int) * (b as int) <= 0x1_0000_0000 * 0x1_0000) by (nonlinear_arith)
            requires
                0 <= update_radius <= u32::MAX,
                1 <= b <= MAX_UNIT,
        ;
        assert((update_radius as int - 1) * (b as int) == (update_radius as int) * (b as int) - b) by (nonlinear_arith);
    }
    let fm = floor_div_exec(new_point_axis, m) * m;
    let c = *central_chunk_axis;
    let r = update_radius as i64;
    if fm < c - r * m {
        *central_chunk_axis = c - m;
        true
    } else if c + (r * b - b) < fm {
        *central_chunk_axis = c + m;
        true
    } else {
        false
    }
}

/// Whether the corner `existing_chunk_axis` lies inside the radius `chunk_radius` around
/// the centre `central_chunk_axis`, on one axis, as [`inside_radius`] says.
pub fn check_inside_radius(central_chunk_axis: i64, existing_chunk_axis: i64, chunk_radius: Option<u32>, b: i64) -> (r: bool)
    requires
        -MAX_CHUNK_POS <= central_chunk_axis <= MAX_CHUNK_POS,
        -MAX_CHUNK_POS <= existing_chunk_axis <= MAX_CHUNK_POS,
        1 <= b <= MAX_UNIT,
    ensures
        r == inside_radius(central_chunk_axis as int, existing_chunk_axis as int, chunk_radius, b as int),
{
    match chunk_radius {
        Some(radius) => {
            let rad = radius as i64;
            proof {
                assert((rad as int) * (b as int) <= 0x1_0000_0000 * 0x1_0000) by (nonlinear_arith)
                    requires
                        0 <= rad <= u32::MAX,
                        1 <= b <= MAX_UNIT,
                ;
                assert(((rad + 1) as int) * (b as int) == (rad as int) * (b as int) + b) by (nonlinear_arith);
            }
            central_chunk_axis - (rad * b + b) < existing_chunk_axis && existing_chunk_axis < central_chunk_axis + rad * b
        },
        None => false,
    }
}

/// A point the player can be at: within the world's bounds.
pub open spec fn update_ok(mode: UpdateChunk) -> bool {
    match mode {
        UpdateChunk::NewPos(p) => length_in_range(p, MAX_WORLD as int),
        UpdateChunk::Forced => true,
    }
}

/// A chunk's corner and mesh, generated for a chunk about to be loaded.
pub type GeneratedChunk = (Length3D, Vec<MeshPart>);

/// The chunks loaded around the player, in chunks of `chunk_size` blocks: those within
/// the border radius of `central_pos` are loaded, and those within the inner radius of
/// `inner_central_pos` are hidden. The centres follow the player by whole units: border
/// units of `border_unit` blocks and chunks.
pub struct ChunkMesh<'b> {
    pub central_pos: Length3D,
    pub inner_central_pos: Length3D,
    pub chunk_size: i64,
    pub border_unit: i64,
    /// border rendering radius, in border units
    pub chunk_outer_radius: i32,
    /// how far the player may go from the centre before it follows, in border units
    pub chunk_outer_update_radius: u32,
    /// border rendering radius, in chunks
    pub subchunk_outer_radius: i32,
    /// the radius inside which chunks are not drawn, in chunks
    pub chunk_inner_radius: Option<u32>,
    pub chunk_inner_update_radius: Option<u32>,
    pub generator: ChunkGeneratorMF<'b>,
    pub chunks: Vec<Chunk>,
}

impl<'b> ChunkMesh<'b> {
    pub open spec fn wf(&self) -> bool {
        &&& 1 <= self.chunk_size <= MAX_UNIT
        &&& self.chunk_size == self.generator.chunk_size
        &&& 1 <= self.border_unit <= MAX_UNIT
        &&& 0 <= self.chunk_outer_radius <= MAX_RADIUS
        &&& 0 <= self.subchunk_outer_radius
        &&& self.subchunk_outer_radius * self.chunk_size <= MAX_RADIUS * MAX_UNIT
        &&& length_in_range(self.central_pos, MAX_CENTRAL as int)
        &&& length_in_range(self.inner_central_pos, MAX_CENTRAL as int)
        &&& chunk_set_wf(self.chunks@, self.chunk_size as int)
        &&& chunk_meshes_wf(self.chunks@)
    }

    /// The border radius in chunks.
    pub open spec fn radius(&self) -> int {
        self.subchunk_outer_radius as int
    }

    /// The centres after the update `mode`, and whether the border centre and the inner
    /// centre moved (a forced update counts as both).
    pub open spec fn next_state(&self, mode: UpdateChunk) -> (Length3D, Length3D, bool, bool) {
        match mode {
            UpdateChunk::Forced => (self.central_pos, self.inner_central_pos, true, true),
            UpdateChunk::NewPos(p) => {
                let inner = match self.chunk_inner_update_radius {
                    Some(r) => center_step(self.inner_central_pos, p, r as int, self.chunk_size as int, self.chunk_size as int),
                    None => (self.inner_central_pos, false),
                };
                let outer = center_step(self.central_pos, p, self.chunk_outer_update_radius as int,
                    self.border_unit as int, self.chunk_size as int);
                (outer.0, inner.0, outer.1, inner.1)
            },
        }
    }

    /// No chunk is loaded yet. The border radius in chunks is the border radius
    /// `outer.0`, in border units of `border_unit` blocks, divided by the chunk size.
    pub fn new(pos: Length3D, outer: ChunkRadius, inner: Option<ChunkRadius>, border_unit: u32,
        generator: ChunkGeneratorMF<'b>) -> (r: Self)
        requires
            length_in_range(pos, MAX_CENTRAL as int),
            outer.0 <= MAX_RADIUS,
            1 <= border_unit <= MAX_UNIT,
            1 <= generator.chunk_size <= MAX_UNIT,
        ensures
            r.wf(),
            r.central_pos == pos,
            r.inner_central_pos == pos,
            r.chunk_size == generator.chunk_size,
            r.border_unit == border_unit,
            r.chunk_outer_radius == outer.0,
            r.chunk_outer_update_radius == outer.1,
            r.subchunk_outer_radius == (outer.0 as int) * (border_unit as int) / (generator.chunk_size as int),
            r.chunk_inner_radius == (match inner { Some(i) => Some(i.0), None => None::<u32> }),
            r.chunk_inner_update_radius == (match inner { Some(i) => Some(i.1), None => None::<u32> }),
            r.generator == generator,
            r.chunks@.len() == 0,
    {
        let b = generator.chunk_size as i64;
        let a = border_unit as i64;
        let o = outer.0 as i64;
        proof {
            assert(o * a <= 256 * 0x1_0000) by (nonlinear_arith)
                requires
                    0 <= o <= 256,
                    1 <= a <= 0x1_0000,
            ;
            vstd::arithmetic::div_mod::lemma_fundamental_div_mod((o * a) as int, b as int);
            vstd::arithmetic::div_mod::lemma_mod_bound((o * a) as int, b as int);
            let q = (o * a) as int / (b as int);
            assert(0 <= q && q * b <= o * a) by (nonlinear_arith)
                requires
                    (o * a) as int == (b as int) * q + (o * a) as int % (b as int),
                    0 <= (o * a) as int % (b as int),
                    0 <= o * a,
                    1 <= b,
            ;
        }
        let s = (o * a / b) as i32;
        let (inner_radius, inner_update) = match inner {
            Some(ChunkRadius(border, update)) => (Some(border), Some(update)),
            None => (None, None),
        };
        ChunkMesh {
            central_pos: pos,
            inner_central_pos: pos,
            chunk_size: b,
            border_unit: a,
            chunk_outer_radius: outer.0 as i32,
            chunk_outer_update_radius: outer.1,
            subchunk_outer_radius: s,
            chunk_inner_radius: inner_radius,
            chunk_inner_update_radius: inner_update,
            generator,
            chunks: Vec::new(),
        }
    }

    /// Replaces the generator by another of the same chunk size.
    pub fn swap_generator(&mut self, generator: ChunkGeneratorMF<'b>)
        requires
            old(self).wf(),
            generator.chunk_size == old(self).chunk_size,
        ensures
            final(self).wf(),
            *final(self) == (ChunkMesh { generator, ..*old(self) }),
    {
        self.generator = generator;
    }

    /// The centres after the update `mode` and whether each moved, as [`Self::next_state`]
    /// says.
    fn next_centers(&self, mode: UpdateChunk) -> (r: (Length3D, Length3D, bool, bool))
        requires
            self.wf(),
            update_ok(mode),
        ensures
            r == self.next_state(mode),
            length_in_range(r.0, MAX_CENTRAL as int),
            length_in_range(r.1, MAX_CENTRAL as int),
    {
        match mode {
            UpdateChunk::Forced => (self.central_pos, self.inner_central_pos, true, true),
            UpdateChunk::NewPos(p) => {
                let mut inner = self.inner_central_pos;
                let mut inner_moved = false;
                match self.chunk_inner_update_radius {
                    Some(r) => {
                        let bx = check_and_update_axis(&mut inner.x, p.x, r, self.chunk_size, self.chunk_size);
                        let by = check_and_update_axis(&mut inner.y, p.y, r, self.chunk_size, self.chunk_size);
                        let bz = check_and_update_axis(&mut inner.z, p.z, r, self.chunk_size, self.chunk_size);
                        inner_moved = bx || by || bz;
                    },
                    None => {},
                }
                let mut outer = self.central_pos;
                let r = self.chunk_outer_update_radius;
                let bx = check_and_update_axis(&mut outer.x, p.x, r, self.border_unit, self.chunk_size);
                let by = check_and_update_axis(&mut outer.y, p.y, r, self.border_unit, self.chunk_size);
                let bz = check_and_update_axis(&mut outer.z, p.z, r, self.border_unit, self.chunk_size);
                (outer, inner, bx || by || bz, inner_moved)
            },
        }
    }
}

/// An entry for the corner `p` is among the generated chunks.
pub open spec fn has_mesh(meshes: Seq<GeneratedChunk>, p: Length3D) -> bool {
    exists|j: int| 0 <= j < meshes.len() && (#[trigger] meshes[j]).0 == p
}

/// The entry `j` is the first for the corner `p`.
pub open spec fn first_mesh(meshes: Seq<GeneratedChunk>, p: Length3D, j: int) -> bool {
    &&& 0 <= j < meshes.len()
    &&& meshes[j].0 == p
    &&& forall|j2: int| 0 <= j2 < j ==> (#[trigger] meshes[j2]).0 != p
}

/// The mesh of the first entry for the corner `p`.
pub open spec fn mesh_for(meshes: Seq<GeneratedChunk>, p: Length3D) -> Vec<MeshPart> {
    meshes[choose|j: int| first_mesh(meshes, p, j)].1
}

/// Every part of every generated mesh is a well-formed mesh.
pub open spec fn meshes_wf(meshes: Seq<GeneratedChunk>) -> bool {
    forall|j: int, k: int| 0 <= j < meshes.len() && 0 <= k < meshes[j].1@.len() ==>
        mesh_wf((#[trigger] meshes[j].1@[k]).0@, meshes[j].1@[k].1@)
}

proof fn lemma_first_mesh_upto(meshes: Seq<GeneratedChunk>, p: Length3D, n: int)
    requires
        0 <= n <= meshes.len(),
        exists|j: int| 0 <= j < n && (#[trigger] meshes[j]).0 == p,
    ensures
        exists|j: int| first_mesh(meshes, p, j),
    decreases n,
{
    if exists|j: int| 0 <= j < n - 1 && (#[trigger] meshes[j]).0 == p {
        lemma_first_mesh_upto(meshes, p, n - 1);
    } else {
        assert(first_mesh(meshes, p, n - 1));
    }
}

/// The first entry for a corner is the one whose mesh [`mesh_for`] gives.
proof fn lemma_mesh_for(meshes: Seq<GeneratedChunk>, p: Length3D, j: int)
    requires
        first_mesh(meshes, p, j),
    ensures
        mesh_for(meshes, p) == meshes[j].1,
{
    let j2 = choose|j2: int| first_mesh(meshes, p, j2);
    assert(first_mesh(meshes, p, j2));
    if j2 < j {
        assert(meshes[j2].0 != p);
    } else if j < j2 {
        assert(meshes[j].0 != p);
    }
}

/// Taking out the first entry for `p` keeps the first entry of every other corner.
proof fn lemma_mesh_remove(meshes: Seq<GeneratedChunk>, p: Length3D, j: int, q: Length3D)
    requires
        first_mesh(meshes, p, j),
        q != p,
        has_mesh(meshes, q),
    ensures
        has_mesh(meshes.remove(j), q),
        mesh_for(meshes.remove(j), q) == mesh_for(meshes, q),
{
    let m2 = meshes.remove(j);
    lemma_first_mesh_upto(meshes, q, meshes.len() as int);
    let jq = choose|jq: int| first_mesh(meshes, q, jq);
    lemma_mesh_for(meshes, q, jq);
    if jq < j {
        assert(m2[jq] == meshes[jq]);
        assert(first_mesh(m2, q, jq));
        lemma_mesh_for(m2, q, jq);
    } else {
        assert(jq != j);
        assert(m2[jq - 1] == meshes[jq]);
        assert forall|j2: int| 0 <= j2 < jq - 1 implies (#[trigger] m2[j2]).0 != q by {
            if j2 < j {
                assert(m2[j2] == meshes[j2]);
            } else {
                assert(m2[j2] == meshes[j2 + 1]);
            }
        }
        assert(first_mesh(m2, q, jq - 1));
        lemma_mesh_for(m2, q, jq - 1);
    }
}

/// Finds the first entry for the corner `p`.
fn find_mesh(meshes: &Vec<GeneratedChunk>, p: Length3D) -> (r: Option<usize>)
    ensures
        r matches Some(j) ==> first_mesh(meshes@, p, j as int),
        r is None ==> !has_mesh(meshes@, p),
{
    let mut j: usize = 0;
    while j < meshes.len()
        invariant
            j <= meshes@.len(),
            forall|j2: int| 0 <= j2 < j ==> (#[trigger] meshes@[j2]).0 != p,
        decreases meshes@.len() - j,
    {
        if meshes[j].0 == p {
            return Some(j);
        }
        j = j + 1;
    }
    None
}

/// Two lists of chunks that differ at most in which chunks are drawn have the same
/// loaded coordinates and are well formed together.
proof fn lemma_same_layout(s1: Seq<Chunk>, s2: Seq<Chunk>, b: int)
    requires
        s1.len() == s2.len(),
        forall|i: int| 0 <= i < s1.len() ==> {
            &&& (#[trigger] s2[i]).pos == s1[i].pos
            &&& s2[i].hash_pos == s1[i].hash_pos
            &&& s2[i].adjacency == s1[i].adjacency
            &&& s2[i].mesh == s1[i].mesh
        },
    ensures
        forall|k: Position| has_key(s1, k) == has_key(s2, k),
        chunk_set_wf(s1, b) ==> chunk_set_wf(s2, b),
        chunk_meshes_wf(s1) ==> chunk_meshes_wf(s2),
{
    assert forall|k: Position| has_key(s1, k) == has_key(s2, k) by {
        if has_key(s1, k) {
            let j = choose|j: int| 0 <= j < s1.len() && (#[trigger] s1[j]).hash_pos == k;
            assert(s2[j].hash_pos == k);
        }
        if has_key(s2, k) {
            let j = choose|j: int| 0 <= j < s2.len() && (#[trigger] s2[j]).hash_pos == k;
            assert(s1[j].hash_pos == k);
        }
    }
    if chunk_set_wf(s1, b) {
        assert forall|i: int, j: int| 0 <= i < s2.len() && 0 <= j < s2.len() && i != j implies
            (#[trigger] s2[i]).hash_pos != (#[trigger] s2[j]).hash_pos by {
            assert(s1[i].hash_pos != s1[j].hash_pos);
        }
        assert forall|i: int| 0 <= i < s2.len() implies {
            &&& length_in_range((#[trigger] s2[i]).pos, MAX_CHUNK_POS as int)
            &&& s2[i].hash_pos == spec_position_of(s2[i].pos, b)
            &&& key_small(s2[i].hash_pos)
        } by {
            assert(s1[i].pos == s2[i].pos);
        }
        assert forall|i: int, d: FaceDir| 0 <= i < s2.len() implies
            #[trigger] adjacent(s2[i].adjacency, d) == expected_link(s2, s2[i].hash_pos, d) by {
            assert(adjacent(s1[i].adjacency, d) == expected_link(s1, s1[i].hash_pos, d));
            assert(has_key(s1, neighbour(s1[i].hash_pos, d)) == has_key(s2, neighbour(s1[i].hash_pos, d)));
        }
    }
    if chunk_meshes_wf(s1) {
        assert forall|c: int, k: int| 0 <= c < s2.len() && 0 <= k < s2[c].mesh@.len() implies
            mesh_wf((#[trigger] s2[c].mesh@[k]).0@, s2[c].mesh@[k].1@) by {
            assert(s2[c].mesh == s1[c].mesh);
            assert(mesh_wf(s1[c].mesh@[k].0@, s1[c].mesh@[k].1@));
        }
    }
}

/// Shows or hides the chunk `i`.
fn set_visible(chunks: &mut Vec<Chunk>, i: usize, v: bool)
    requires
        i < old(chunks)@.len(),
    ensures
        final(chunks)@.len() == old(chunks)@.len(),
        forall|j: int| 0 <= j < final(chunks)@.len() ==> {
            &&& (#[trigger] final(chunks)@[j]).pos == old(chunks)@[j].pos
            &&& final(chunks)@[j].hash_pos == old(chunks)@[j].hash_pos
            &&& final(chunks)@[j].adjacency == old(chunks)@[j].adjacency
            &&& final(chunks)@[j].mesh == old(chunks)@[j].mesh
            &&& final(chunks)@[j].visible == if j == i { v } else { old(chunks)@[j].visible }
        },
{
    chunks[i].visible = v;
}

/// Whether a loaded chunk is drawn after an update visits it: when the inner centre moved,
/// exactly when it lies outside the inner radius; else, when the border centre moved,
/// always; else as before.
pub open spec fn visit_visible(pc: bool, ic: bool, inside: bool, v: bool) -> bool {
    if ic { !inside } else if pc { true } else { v }
}

/// Whether visiting a loaded chunk changes the drawn chunks: it is shown where it was
/// hidden, or, when the inner centre moved, it lies inside the inner radius.
pub open spec fn visit_changed(pc: bool, ic: bool, inside: bool, v: bool) -> bool {
    (pc && !v) || (ic && (inside || (!pc && !v)))
}

/// Visits the chunk at the corner `p` during an update, as [`visit_visible`] says; when the
/// border centre moved and the chunk is missing, loads it with the first generated mesh
/// for `p`, drawn unless the inner centre moved and it lies inside the inner radius.
/// Returns whether the drawn chunks changed.
fn visit_chunk(chunks: &mut Vec<Chunk>, b: i64, p: Length3D, meshes: &mut Vec<GeneratedChunk>,
    pc: bool, ic: bool, inner: Length3D, inner_r: Option<u32>) -> (changed: bool)
    requires
        1 <= b <= MAX_UNIT,
        chunk_set_wf(old(chunks)@, b as int),
        chunk_meshes_wf(old(chunks)@),
        meshes_wf(old(meshes)@),
        length_in_range(p, MAX_CHUNK_POS as int),
        length_in_range(inner, MAX_CENTRAL as int),
        pc && !has_key(old(chunks)@, spec_position_of(p, b as int)) ==> has_mesh(old(meshes)@, p),
    ensures
        chunk_set_wf(final(chunks)@, b as int),
        chunk_meshes_wf(final(chunks)@),
        meshes_wf(final(meshes)@),
        forall|q: Position| has_key(final(chunks)@, q) == (has_key(old(chunks)@, q) || (pc && q == spec_position_of(p, b as int))),
        has_key(old(chunks)@, spec_position_of(p, b as int)) ==> {
            &&& final(chunks)@.len() == old(chunks)@.len()
            &&& final(meshes)@ == old(meshes)@
            &&& forall|i: int| 0 <= i < old(chunks)@.len() ==> {
                &&& (#[trigger] final(chunks)@[i]).pos == old(chunks)@[i].pos
                &&& final(chunks)@[i].hash_pos == old(chunks)@[i].hash_pos
                &&& final(chunks)@[i].mesh == old(chunks)@[i].mesh
                &&& final(chunks)@[i].visible == if old(chunks)@[i].hash_pos == spec_position_of(p, b as int) {
                    visit_visible(pc, ic, inside_all(inner, old(chunks)@[i].pos, inner_r, b as int), old(chunks)@[i].visible)
                } else {
                    old(chunks)@[i].visible
                }
            }
            &&& forall|i: int| 0 <= i < old(chunks)@.len() && (#[trigger] old(chunks)@[i]).hash_pos
                == spec_position_of(p, b as int) ==>
                changed == visit_changed(pc, ic, inside_all(inner, old(chunks)@[i].pos, inner_r, b as int), old(chunks)@[i].visible)
        },
        !has_key(old(chunks)@, spec_position_of(p, b as int)) && pc ==> {
            &&& final(chunks)@.len() == old(chunks)@.len() + 1
            &&& forall|i: int| 0 <= i < old(chunks)@.len() ==> {
                &&& (#[trigger] final(chunks)@[i]).pos == old(chunks)@[i].pos
                &&& final(chunks)@[i].hash_pos == old(chunks)@[i].hash_pos
                &&& final(chunks)@[i].mesh == old(chunks)@[i].mesh
                &&& final(chunks)@[i].visible == old(chunks)@[i].visible
            }
            &&& final(chunks)@.last().pos == p
            &&& final(chunks)@.last().hash_pos == spec_position_of(p, b as int)
            &&& final(chunks)@.last().mesh == mesh_for(old(meshes)@, p)
            &&& final(chunks)@.last().visible == visit_visible(true, ic, inside_all(inner, p, inner_r, b as int), true)
            &&& changed
            &&& forall|q: Length3D| q != p && has_mesh(old(meshes)@, q) ==>
                has_mesh(final(meshes)@, q) && mesh_for(final(meshes)@, q) == mesh_for(old(meshes)@, q)
        },
        !has_key(old(chunks)@, spec_position_of(p, b as int)) && !pc ==> {
            &&& final(chunks)@ == old(chunks)@
            &&& final(meshes)@ == old(meshes)@
            &&& !changed
        },
{
    let ghost old_chunks = chunks@;
    let k = Position::from_length(p, b);
    match find_chunk(chunks, k) {
        Some(i) => {
            proof {
                assert forall|i2: int| 0 <= i2 < old_chunks.len() && (#[trigger] old_chunks[i2]).hash_pos == k
                    implies i2 == i by {
                    if i2 != i {
                        assert(old_chunks[i2].hash_pos != old_chunks[i as int].hash_pos);
                    }
                }
                assert(length_in_range(old_chunks[i as int].pos, MAX_CHUNK_POS as int));
            }
            let mut changed = false;
            if pc && !chunks[i].visible {
                set_visible(chunks, i, true);
                changed = true;
            }
            if ic {
                let cp = chunks[i].pos;
                if check_inside_radius(inner.x, cp.x, inner_r, b) && check_inside_radius(inner.y, cp.y, inner_r, b)
                    && check_inside_radius(inner.z, cp.z, inner_r, b) {
                    set_visible(chunks, i, false);
                    changed = true;
                } else if !chunks[i].visible {
                    set_visible(chunks, i, true);
                    changed = true;
                }
            }
            proof {
                lemma_same_layout(old_chunks, chunks@, b as int);
            }
            changed
        },
        None => {
            if pc {
                match find_mesh(meshes, p) {
                    Some(j) => {
                        let ghost old_meshes = meshes@;
                        let entry = meshes.remove(j);
                        proof {
                            lemma_mesh_for(old_meshes, p, j as int);
                            assert forall|q: Length3D| q != p && has_mesh(old_meshes, q) implies
                                has_mesh(meshes@, q) && mesh_for(meshes@, q) == mesh_for(old_meshes, q) by {
                                lemma_mesh_remove(old_meshes, p, j as int, q);
                            }
                            assert forall|j2: int, k2: int| 0 <= j2 < meshes@.len() && 0 <= k2 < meshes@[j2].1@.len() implies
                                mesh_wf((#[trigger] meshes@[j2].1@[k2]).0@, meshes@[j2].1@[k2].1@) by {
                                if j2 < j {
                                    assert(meshes@[j2] == old_meshes[j2]);
                                } else {
                                    assert(meshes@[j2] == old_meshes[j2 + 1]);
                                }
                            }
                            assert(entry.1 == old_meshes[j as int].1);
                        }
                        load_chunk_into(chunks, b, p, entry.1);
                        let ghost loaded = chunks@;
                        proof {
                            assert forall|c: int, k2: int| 0 <= c < loaded.len() && 0 <= k2 < loaded[c].mesh@.len() implies
                                mesh_wf((#[trigger] loaded[c].mesh@[k2]).0@, loaded[c].mesh@[k2].1@) by {
                                if c < old_chunks.len() {
                                    assert(loaded[c].mesh == old_chunks[c].mesh);
                                } else {
                                    assert(loaded[c].mesh == old_meshes[j as int].1);
                                }
                            }
                        }
                        if ic && check_inside_radius(inner.x, p.x, inner_r, b) && check_inside_radius(inner.y, p.y, inner_r, b)
                            && check_inside_radius(inner.z, p.z, inner_r, b) {
                            let last = chunks.len() - 1;
                            set_visible(chunks, last, false);
                            proof {
                                lemma_same_layout(loaded, chunks@, b as int);
                            }
                        }
                        true
                    },
                    None => {
                        proof {
                            assert(false);
                        }
                        false
                    },
                }
            } else {
                false
            }
        },
    }
}

/// The chunk coordinates `k` lie in the cube of radius `s` (in chunks) around `base`.
pub open spec fn rel_in_cube(k: Position, base: Position, s: int) -> bool {
    &&& -s <= k.x - base.x < s
    &&& -s <= k.y - base.y < s
    &&& -s <= k.z - base.z < s
}

/// The chunk `k` comes before the chunk (cx, cy, cz) of the cube around `base` (relative
/// to it), ordered by x, then y, then z.
pub open spec fn lex_before(k: Position, base: Position, cx: int, cy: int, cz: int) -> bool {
    let x = k.x - base.x;
    let y = k.y - base.y;
    let z = k.z - base.z;
    x < cx || (x == cx && (y < cy || (y == cy && z < cz)))
}

/// The corner of the chunk `k` of the cube around the centre `center`, whose own chunk
/// is `base`.
pub open spec fn cube_pos(center: Length3D, base: Position, k: Position, b: int) -> Length3D {
    Length3D {
        x: (center.x + (k.x - base.x) * b) as i64,
        y: (center.y + (k.y - base.y) * b) as i64,
        z: (center.z + (k.z - base.z) * b) as i64,
    }
}

proof fn lemma_cube_axis(c: int, b: int, s: int, kx: int)
    requires
        -(MAX_CENTRAL as int) <= c <= MAX_CENTRAL,
        1 <= b <= MAX_UNIT,
        0 <= s,
        s * b <= MAX_RADIUS * MAX_UNIT,
        -s <= kx - floor_div(c, b) < s,
    ensures
        -(MAX_CHUNK_POS as int) + MAX_UNIT <= c + (kx - floor_div(c, b)) * b <= MAX_CHUNK_POS - MAX_UNIT,
        floor_div(c + (kx - floor_div(c, b)) * b, b) == kx,
{
    let q = floor_div(c, b);
    let d = kx - q;
    vstd::arithmetic::div_mod::lemma_fundamental_div_mod(c, b);
    vstd::arithmetic::div_mod::lemma_mod_bound(c, b);
    assert(-(s * b) <= d * b <= s * b) by (nonlinear_arith)
        requires
            -s <= d < s,
            1 <= b,
    ;
    let r = c % b;
    assert(c + d * b == b * (q + d) + r) by (nonlinear_arith)
        requires
            c == b * q + r,
    ;
    vstd::arithmetic::div_mod::lemma_fundamental_div_mod_converse(c + d * b, b, q + d, r);
}

/// Every chunk of the cube around a centre has its corner well inside the world, and its
/// coordinates are those of its corner.
proof fn lemma_cube_pos(center: Length3D, b: int, s: int, k: Position)
    requires
        length_in_range(center, MAX_CENTRAL as int),
        1 <= b <= MAX_UNIT,
        0 <= s,
        s * b <= MAX_RADIUS * MAX_UNIT,
        rel_in_cube(k, spec_position_of(center, b), s),
    ensures
        length_in_range(cube_pos(center, spec_position_of(center, b), k, b), MAX_CHUNK_POS as int - MAX_UNIT),
        spec_position_of(cube_pos(center, spec_position_of(center, b), k, b), b) == k,
{
    lemma_floor_div_small(center.x as int, b);
    lemma_floor_div_small(center.y as int, b);
    lemma_floor_div_small(center.z as int, b);
    lemma_cube_axis(center.x as int, b, s, k.x as int);
    lemma_cube_axis(center.y as int, b, s, k.y as int);
    lemma_cube_axis(center.z as int, b, s, k.z as int);
}

/// Moving the cube's cursor one chunk on (z first, then y, then x) adds exactly the chunk it
/// was at to those before it.
proof fn lemma_lex_next(k: Position, base: Position, s: int, cx: int, cy: int, cz: int, nx: int, ny: int, nz: int)
    requires
        -s <= cy < s,
        -s <= cz < s,
        rel_in_cube(k, base, s),
        (cz + 1 < s && nx == cx && ny == cy && nz == cz + 1)
            || (cz + 1 == s && nz == -s && cy + 1 < s && nx == cx && ny == cy + 1)
            || (cz + 1 == s && nz == -s && cy + 1 == s && ny == -s && nx == cx + 1),
    ensures
        lex_before(k, base, nx, ny, nz) == (lex_before(k, base, cx, cy, cz)
            || (k.x - base.x == cx && k.y - base.y == cy && k.z - base.z == cz)),
{
}

impl<'b> ChunkMesh<'b> {
    /// The coordinates of the chunk at the border centre after the update `mode`.
    pub open spec fn base_key(&self, mode: UpdateChunk) -> Position {
        spec_position_of(self.next_state(mode).0, self.chunk_size as int)
    }

    /// The chunk `k` lies within the border radius after the update `mode`.
    pub open spec fn in_cube(&self, mode: UpdateChunk, k: Position) -> bool {
        rel_in_cube(k, self.base_key(mode), self.radius())
    }

    /// The corner of the chunk `k` of the cube after the update `mode`.
    pub open spec fn load_pos(&self, mode: UpdateChunk, k: Position) -> Length3D {
        cube_pos(self.next_state(mode).0, self.base_key(mode), k, self.chunk_size as int)
    }

    /// The update `mode` loads the chunk `k`: the border centre moves, and `k` lies
    /// within the border radius and is not loaded yet.
    pub open spec fn will_load(&self, mode: UpdateChunk, k: Position) -> bool {
        &&& self.next_state(mode).2
        &&& self.in_cube(mode, k)
        &&& !has_key(self.chunks@, k)
    }

    /// The corner `pos` lies inside the inner radius after the update `mode`.
    pub open spec fn inside_inner(&self, mode: UpdateChunk, pos: Length3D) -> bool {
        inside_all(self.next_state(mode).1, pos, self.chunk_inner_radius, self.chunk_size as int)
    }

    /// Whether the loaded chunk `c` is drawn after an update `mode` that moves a centre:
    /// within the border radius, exactly when it lies outside the inner radius (the chunks
    /// inside it are never drawn); outside the border radius, not if the border centre
    /// moved, else as before.
    pub open spec fn visible_after(&self, mode: UpdateChunk, c: Chunk) -> bool {
        if self.in_cube(mode, c.hash_pos) {
            !self.inside_inner(mode, c.pos)
        } else if self.next_state(mode).2 {
            false
        } else {
            c.visible
        }
    }

    /// Whether the update `mode` changes the drawn chunks: when the border centre moves,
    /// exactly when the border radius holds a chunk; when only the inner centre moves,
    /// exactly when a loaded chunk within the border radius lies inside the inner radius
    /// or is hidden.
    pub open spec fn changes(&self, mode: UpdateChunk) -> bool {
        if self.next_state(mode).2 {
            self.radius() > 0
        } else if self.next_state(mode).3 {
            exists|i: int| 0 <= i < self.chunks@.len() && self.in_cube(mode, (#[trigger] self.chunks@[i]).hash_pos)
                && (self.inside_inner(mode, self.chunks@[i].pos) || !self.chunks@[i].visible)
        } else {
            false
        }
    }

    /// Hides every loaded chunk.
    fn reset_chunk_visibility(&mut self)
        requires
            old(self).wf(),
        ensures
            final(self).wf(),
            *final(self) == (ChunkMesh { chunks: final(self).chunks, ..*old(self) }),
            final(self).chunks@.len() == old(self).chunks@.len(),
            forall|i: int| 0 <= i < old(self).chunks@.len() ==> {
                &&& (#[trigger] final(self).chunks@[i]).pos == old(self).chunks@[i].pos
                &&& final(self).chunks@[i].hash_pos == old(self).chunks@[i].hash_pos
                &&& final(self).chunks@[i].adjacency == old(self).chunks@[i].adjacency
                &&& final(self).chunks@[i].mesh == old(self).chunks@[i].mesh
                &&& !final(self).chunks@[i].visible
            },
    {
        let ghost orig = self.chunks@;
        let mut i: usize = 0;
        while i < self.chunks.len()
            invariant
                i <= self.chunks@.len() == orig.len(),
                orig == old(self).chunks@,
                *self == (ChunkMesh { chunks: self.chunks, ..*old(self) }),
                forall|j: int| 0 <= j < orig.len() ==> {
                    &&& (#[trigger] self.chunks@[j]).pos == orig[j].pos
                    &&& self.chunks@[j].hash_pos == orig[j].hash_pos
                    &&& self.chunks@[j].adjacency == orig[j].adjacency
                    &&& self.chunks@[j].mesh == orig[j].mesh
                    &&& self.chunks@[j].visible == if j < i { false } else { orig[j].visible }
                },
            decreases orig.len() - i,
        {
            set_visible(&mut self.chunks, i, false);
            i = i + 1;
        }
        proof {
            lemma_same_layout(orig, self.chunks@, self.chunk_size as int);
        }
    }
}

/// `next` and `changed` are what updating `prev` by `mode` gives, with the generated chunks
/// `meshes`: the centres move as [`ChunkMesh::next_state`] says; if neither moved, nothing
/// else changes; else every loaded chunk keeps its corner, coordinates and mesh and is
/// drawn as [`ChunkMesh::visible_after`] says, and the chunks added are exactly those the
/// update loads, each at its corner, with the first generated mesh for that corner, drawn
/// unless it lies inside the inner radius. `changed` is as
/// [`ChunkMesh::changes`] says.
pub open spec fn updated<'b>(prev: ChunkMesh<'b>, mode: UpdateChunk, meshes: Seq<GeneratedChunk>,
    next: ChunkMesh<'b>, changed: bool) -> bool {
    let ns = prev.next_state(mode);
    &&& next.wf()
    &&& next == (ChunkMesh { central_pos: ns.0, inner_central_pos: ns.1, chunks: next.chunks, ..prev })
    &&& !ns.2 && !ns.3 ==> next.chunks@ == prev.chunks@
    &&& ns.2 || ns.3 ==> {
        &&& next.chunks@.len() >= prev.chunks@.len()
        &&& forall|i: int| 0 <= i < prev.chunks@.len() ==> {
            &&& (#[trigger] next.chunks@[i]).pos == prev.chunks@[i].pos
            &&& next.chunks@[i].hash_pos == prev.chunks@[i].hash_pos
            &&& next.chunks@[i].mesh == prev.chunks@[i].mesh
            &&& next.chunks@[i].visible == prev.visible_after(mode, prev.chunks@[i])
        }
        &&& forall|i: int| prev.chunks@.len() <= i < next.chunks@.len() ==> {
            &&& prev.will_load(mode, (#[trigger] next.chunks@[i]).hash_pos)
            &&& next.chunks@[i].pos == prev.load_pos(mode, next.chunks@[i].hash_pos)
            &&& next.chunks@[i].mesh == mesh_for(meshes, next.chunks@[i].pos)
            &&& next.chunks@[i].visible == !prev.inside_inner(mode, next.chunks@[i].pos)
        }
        &&& forall|k: Position| prev.will_load(mode, k) ==> has_key(next.chunks@, k)
    }
    &&& changed == prev.changes(mode)
}

impl<'b> ChunkMesh<'b> {
    /// Follows the player, or, forced, refreshes every chunk: moves the centres as
    /// [`Self::next_state`] says and, if either moved, hides the chunks outside the border
    /// radius when the border centre moved, shows the chunks within it, loading the missing
    /// ones with the first generated mesh for their corner, and hides those inside the inner
    /// radius. Returns whether the drawn chunks changed, as [`Self::changes`] says.
    pub fn update(&mut self, mode: UpdateChunk, meshes: Vec<GeneratedChunk>) -> (changed: bool)
        requires
            old(self).wf(),
            update_ok(mode),
            meshes_wf(meshes@),
            forall|k: Position| #[trigger] old(self).will_load(mode, k) ==> has_mesh(meshes@, old(self).load_pos(mode, k)),
        ensures
            updated(*old(self), mode, meshes@, *final(self), changed),
    {
        let (c2, i2, pc, ic) = self.next_centers(mode);
        if !pc && !ic {
            return false;
        }
        self.central_pos = c2;
        self.inner_central_pos = i2;
        let ghost before_reset = self.chunks@;
        if pc {
            self.reset_chunk_visibility();
        }
        let ghost old_chunks = old(self).chunks@;
        let ghost s0 = self.chunks@;
        let ghost meshes0 = meshes@;
        let s = self.subchunk_outer_radius as i64;
        let b = self.chunk_size;
        let ghost base = spec_position_of(c2, b as int);
        let inner_r = self.chunk_inner_radius;
        proof {
            assert(before_reset == old_chunks);
            lemma_same_layout(old_chunks, s0, b as int);
            lemma_floor_div_small(c2.x as int, b as int);
            lemma_floor_div_small(c2.y as int, b as int);
            lemma_floor_div_small(c2.z as int, b as int);
            assert(s <= MAX_RADIUS * MAX_UNIT) by (nonlinear_arith)
                requires
                    0 <= s,
                    1 <= b,
                    s * b <= MAX_RADIUS * MAX_UNIT,
            ;
            assert forall|k: Position| #[trigger] rel_in_cube(k, base, s as int) && pc
                && !lex_before(k, base, -s as int, -s as int, -s as int) && !has_key(old_chunks, k) implies
                has_mesh(meshes@, cube_pos(c2, base, k, b as int)) by {
                assert(old(self).will_load(mode, k));
            }
        }
        let mut meshes = meshes;
        let mut changed = false;
        let mut cx: i64 = -s;
        let mut cy: i64 = -s;
        let mut cz: i64 = -s;
        while cx < s
            invariant
                0 <= s <= MAX_RADIUS * MAX_UNIT,
                -s <= cx <= s,
                cx < s ==> -s <= cy < s && -s <= cz < s,
                cx == s ==> cy == -s && cz == -s,
                s == self.subchunk_outer_radius,
                b == self.chunk_size,
                (c2, i2, pc, ic) == old(self).next_state(mode),
                pc || ic,
                base == old(self).base_key(mode),
                key_small(base),
                inner_r == old(self).chunk_inner_radius,
                *self == (ChunkMesh { central_pos: c2, inner_central_pos: i2, chunks: self.chunks, ..*old(self) }),
                self.wf(),
                meshes_wf(meshes@),
                old_chunks == old(self).chunks@,
                s0.len() == old_chunks.len(),
                forall|k: Position| has_key(old_chunks, k) == has_key(s0, k),
                forall|i: int| 0 <= i < s0.len() ==> {
                    &&& (#[trigger] s0[i]).pos == old_chunks[i].pos
                    &&& s0[i].hash_pos == old_chunks[i].hash_pos
                    &&& s0[i].mesh == old_chunks[i].mesh
                    &&& s0[i].visible == (!pc && old_chunks[i].visible)
                },
                self.chunks@.len() >= s0.len(),
                forall|i: int| 0 <= i < s0.len() ==> {
                    &&& (#[trigger] self.chunks@[i]).pos == s0[i].pos
                    &&& self.chunks@[i].hash_pos == s0[i].hash_pos
                    &&& self.chunks@[i].mesh == s0[i].mesh
                    &&& self.chunks@[i].visible == if rel_in_cube(s0[i].hash_pos, base, s as int)
                        && lex_before(s0[i].hash_pos, base, cx as int, cy as int, cz as int) {
                        !inside_all(i2, s0[i].pos, inner_r, b as int)
                    } else {
                        s0[i].visible
                    }
                },
                forall|i: int| s0.len() <= i < self.chunks@.len() ==> {
                    &&& pc
                    &&& rel_in_cube((#[trigger] self.chunks@[i]).hash_pos, base, s as int)
                    &&& lex_before(self.chunks@[i].hash_pos, base, cx as int, cy as int, cz as int)
                    &&& !has_key(old_chunks, self.chunks@[i].hash_pos)
                    &&& self.chunks@[i].pos == cube_pos(c2, base, self.chunks@[i].hash_pos, b as int)
                    &&& self.chunks@[i].mesh == mesh_for(meshes0, self.chunks@[i].pos)
                    &&& self.chunks@[i].visible == !inside_all(i2, self.chunks@[i].pos, inner_r, b as int)
                },
                forall|k: Position| pc && rel_in_cube(k, base, s as int) && lex_before(k, base, cx as int, cy as int, cz as int)
                    ==> #[trigger] has_key(self.chunks@, k),
                forall|k: Position| rel_in_cube(k, base, s as int) && !lex_before(k, base, cx as int, cy as int, cz as int)
                    ==> (#[trigger] has_key(self.chunks@, k) == has_key(old_chunks, k)),
                forall|k: Position| #[trigger] rel_in_cube(k, base, s as int) && pc && !lex_before(k, base, cx as int, cy as int, cz as int)
                    && !has_key(old_chunks, k) ==> {
                    &&& has_mesh(meshes@, cube_pos(c2, base, k, b as int))
                    &&& mesh_for(meshes@, cube_pos(c2, base, k, b as int)) == mesh_for(meshes0, cube_pos(c2, base, k, b as int))
                },
                changed == if pc {
                    !(cx == -s && cy == -s && cz == -s)
                } else {
                    exists|i: int| 0 <= i < s0.len() && rel_in_cube((#[trigger] s0[i]).hash_pos, base, s as int)
                        && lex_before(s0[i].hash_pos, base, cx as int, cy as int, cz as int)
                        && (inside_all(i2, s0[i].pos, inner_r, b as int) || !s0[i].visible)
                },
            decreases s - cx, s - cy, s - cz,
        {
            proof {
                assert(-(s * b) <= cx * b <= s * b) by (nonlinear_arith)
                    requires
                        -s <= cx <= s,
                        1 <= b,
                ;
                assert(-(s * b) <= cy * b <= s * b) by (nonlinear_arith)
                    requires
                        -s <= cy <= s,
                        1 <= b,
                ;
                assert(-(s * b) <= cz * b <= s * b) by (nonlinear_arith)
                    requires
                        -s <= cz <= s,
                        1 <= b,
                ;
            }
            let p = Length3D { x: c2.x + cx * b, y: c2.y + cy * b, z: c2.z + cz * b };
            let ghost k = Position { x: (base.x + cx) as isize, y: (base.y + cy) as isize, z: (base.z + cz) as isize };
            proof {
                lemma_cube_pos(c2, b as int, s as int, k);
                assert(p == cube_pos(c2, base, k, b as int));
                assert(rel_in_cube(k, base, s as int));
                assert(!lex_before(k, base, cx as int, cy as int, cz as int));
                assert(has_key(self.chunks@, k) == has_key(old_chunks, k));
            }
            let ghost cs = self.chunks@;
            let ghost ms = meshes@;
            let ch = visit_chunk(&mut self.chunks, b, p, &mut meshes, pc, true, i2, inner_r);
            changed = changed || ch;
            let ghost (ox, oy, oz) = (cx as int, cy as int, cz as int);
            if cz + 1 < s {
                cz = cz + 1;
            } else {
                cz = -s;
                if cy + 1 < s {
                    cy = cy + 1;
                } else {
                    cy = -s;
                    cx = cx + 1;
                }
            }
            proof {
                assert forall|q: Position| rel_in_cube(q, base, s as int) implies
                    lex_before(q, base, cx as int, cy as int, cz as int) == (lex_before(q, base, ox, oy, oz) || q == k) by {
                    lemma_lex_next(q, base, s as int, ox, oy, oz, cx as int, cy as int, cz as int);
                }
                assert forall|q: Position| #[trigger] rel_in_cube(q, base, s as int) && pc
                    && !lex_before(q, base, cx as int, cy as int, cz as int) && !has_key(old_chunks, q) implies {
                    &&& has_mesh(meshes@, cube_pos(c2, base, q, b as int))
                    &&& mesh_for(meshes@, cube_pos(c2, base, q, b as int)) == mesh_for(meshes0, cube_pos(c2, base, q, b as int))
                } by {
                    lemma_cube_pos(c2, b as int, s as int, q);
                    assert(q != k);
                    assert(cube_pos(c2, base, q, b as int) != p);
                    assert(!lex_before(q, base, ox, oy, oz));
                }
                if !pc {
                    let ghost now = exists|i: int| 0 <= i < s0.len() && rel_in_cube((#[trigger] s0[i]).hash_pos, base, s as int)
                        && lex_before(s0[i].hash_pos, base, cx as int, cy as int, cz as int)
                        && (inside_all(i2, s0[i].pos, inner_r, b as int) || !s0[i].visible);
                    let ghost before = exists|i: int| 0 <= i < s0.len() && rel_in_cube((#[trigger] s0[i]).hash_pos, base, s as int)
                        && lex_before(s0[i].hash_pos, base, ox, oy, oz)
                        && (inside_all(i2, s0[i].pos, inner_r, b as int) || !s0[i].visible);
                    if before {
                        let i0 = choose|i: int| 0 <= i < s0.len() && rel_in_cube((#[trigger] s0[i]).hash_pos, base, s as int)
                            && lex_before(s0[i].hash_pos, base, ox, oy, oz)
                            && (inside_all(i2, s0[i].pos, inner_r, b as int) || !s0[i].visible);
                        assert(lex_before(s0[i0].hash_pos, base, cx as int, cy as int, cz as int));
                    }
                    if ch {
                        let i = choose|i: int| 0 <= i < cs.len() && (#[trigger] cs[i]).hash_pos == k;
                        if i >= s0.len() {
                            assert(lex_before(cs[i].hash_pos, base, ox, oy, oz));
                        }
                        assert(cs[i].visible == s0[i].visible);
                        assert(s0[i].hash_pos == k);
                        assert(lex_before(s0[i].hash_pos, base, cx as int, cy as int, cz as int));
                    }
                    if now {
                        let j = choose|i: int| 0 <= i < s0.len() && rel_in_cube((#[trigger] s0[i]).hash_pos, base, s as int)
                            && lex_before(s0[i].hash_pos, base, cx as int, cy as int, cz as int)
                            && (inside_all(i2, s0[i].pos, inner_r, b as int) || !s0[i].visible);
                        if !lex_before(s0[j].hash_pos, base, ox, oy, oz) {
                            assert(s0[j].hash_pos == k);
                            assert(cs[j].hash_pos == k);
                            assert(cs[j].visible == s0[j].visible);
                        }
                    }
                    assert(changed == now);
                } else {
                    if has_key(cs, k) {
                        let i = choose|i: int| 0 <= i < cs.len() && (#[trigger] cs[i]).hash_pos == k;
                        if i >= s0.len() {
                            assert(lex_before(cs[i].hash_pos, base, ox, oy, oz));
                        }
                        assert(cs[i].visible == s0[i].visible);
                    }
                }
            }
        }
        changed
    }
}

/// The chunk `a` comes before the chunk `k` in the cube around `base`, ordered by x, then
/// y, then z.
pub open spec fn key_before(a: Position, k: Position, base: Position) -> bool {
    lex_before(a, base, k.x - base.x, k.y - base.y, k.z - base.z)
}

impl<'b> ChunkMesh<'b> {
    /// The corners of the chunks the update `mode` loads, for their meshes to be generated
    /// before the update: the missing chunks within the border radius when the border
    /// centre moves, ordered by x, then y, then z.
    pub fn missing_chunks(&self, mode: UpdateChunk) -> (r: Vec<Length3D>)
        requires
            self.wf(),
            update_ok(mode),
        ensures
            forall|i: int| 0 <= i < r@.len() ==> {
                &&& self.will_load(mode, spec_position_of(#[trigger] r@[i], self.chunk_size as int))
                &&& r@[i] == self.load_pos(mode, spec_position_of(r@[i], self.chunk_size as int))
            },
            forall|k: Position| #[trigger] self.will_load(mode, k) ==> r@.contains(self.load_pos(mode, k)),
            forall|i: int, j: int| 0 <= i < j < r@.len() ==> key_before(
                spec_position_of(#[trigger] r@[i], self.chunk_size as int),
                spec_position_of(#[trigger] r@[j], self.chunk_size as int),
                self.base_key(mode)),
    {
        let (c2, _i2, pc, _ic) = self.next_centers(mode);
        let mut r: Vec<Length3D> = Vec::new();
        if !pc {
            return r;
        }
        let s = self.subchunk_outer_radius as i64;
        let b = self.chunk_size;
        let ghost base = spec_position_of(c2, b as int);
        proof {
            lemma_floor_div_small(c2.x as int, b as int);
            lemma_floor_div_small(c2.y as int, b as int);
            lemma_floor_div_small(c2.z as int, b as int);
            assert(s <= MAX_RADIUS * MAX_UNIT) by (nonlinear_arith)
                requires
                    0 <= s,
                    1 <= b,
                    s * b <= MAX_RADIUS * MAX_UNIT,
            ;
        }
        let mut cx: i64 = -s;
        let mut cy: i64 = -s;
        let mut cz: i64 = -s;
        while cx < s
            invariant
                0 <= s <= MAX_RADIUS * MAX_UNIT,
                -s <= cx <= s,
                cx < s ==> -s <= cy < s && -s <= cz < s,
                cx == s ==> cy == -s && cz == -s,
                self.wf(),
                s == self.subchunk_outer_radius,
                b == self.chunk_size,
                c2 == self.next_state(mode).0,
                length_in_range(c2, MAX_CENTRAL as int),
                pc == self.next_state(mode).2,
                pc,
                base == self.base_key(mode),
                key_small(base),
                forall|i: int| 0 <= i < r@.len() ==> {
                    &&& self.will_load(mode, spec_position_of(#[trigger] r@[i], b as int))
                    &&& r@[i] == self.load_pos(mode, spec_position_of(r@[i], b as int))
                    &&& lex_before(spec_position_of(r@[i], b as int), base, cx as int, cy as int, cz as int)
                },
                forall|k: Position| #[trigger] self.will_load(mode, k) && lex_before(k, base, cx as int, cy as int, cz as int)
                    ==> r@.contains(self.load_pos(mode, k)),
                forall|i: int, j: int| 0 <= i < j < r@.len() ==> key_before(
                    spec_position_of(#[trigger] r@[i], b as int), spec_position_of(#[trigger] r@[j], b as int), base),
            decreases s - cx, s - cy, s - cz,
        {
            proof {
                assert(-(s * b) <= cx * b <= s * b) by (nonlinear_arith)
                    requires
                        -s <= cx <= s,
                        1 <= b,
                ;
                assert(-(s * b) <= cy * b <= s * b) by (nonlinear_arith)
                    requires
                        -s <= cy <= s,
                        1 <= b,
                ;
                assert(-(s * b) <= cz * b <= s * b) by (nonlinear_arith)
                    requires
                        -s <= cz <= s,
                        1 <= b,
                ;
            }
            let p = Length3D { x: c2.x + cx * b, y: c2.y + cy * b, z: c2.z + cz * b };
            let ghost k = Position { x: (base.x + cx) as isize, y: (base.y + cy) as isize, z: (base.z + cz) as isize };
            proof {
                lemma_cube_pos(c2, b as int, s as int, k);
                assert(p == cube_pos(c2, base, k, b as int));
                assert(p == self.load_pos(mode, k));
            }
            let ghost r0 = r@;
            let key = Position::from_length(p, b);
            if find_chunk(&self.chunks, key).is_none() {
                r.push(p);
                proof {
                    assert(self.will_load(mode, k));
                    assert(r@[r0.len() as int] == p);
                }
            }
            let ghost (ox, oy, oz) = (cx as int, cy as int, cz as int);
            if cz + 1 < s {
                cz = cz + 1;
            } else {
                cz = -s;
                if cy + 1 < s {
                    cy = cy + 1;
                } else {
                    cy = -s;
                    cx = cx + 1;
                }
            }
            proof {
                assert forall|q: Position| rel_in_cube(q, base, s as int) implies
                    lex_before(q, base, cx as int, cy as int, cz as int) == (lex_before(q, base, ox, oy, oz) || q == k) by {
                    lemma_lex_next(q, base, s as int, ox, oy, oz, cx as int, cy as int, cz as int);
                }
                assert forall|i: int| 0 <= i < r@.len() implies
                    lex_before(spec_position_of(#[trigger] r@[i], b as int), base, cx as int, cy as int, cz as int) by {
                    if i < r0.len() {
                        assert(r@[i] == r0[i]);
                    }
                }
                assert forall|k2: Position| #[trigger] self.will_load(mode, k2) && lex_before(k2, base, cx as int, cy as int, cz as int)
                    implies r@.contains(self.load_pos(mode, k2)) by {
                    if lex_before(k2, base, ox, oy, oz) {
                        let j = choose|j: int| 0 <= j < r0.len() && r0[j] == self.load_pos(mode, k2);
                        assert(r@[j] == r0[j]);
                    } else {
                        assert(k2 == k);
                        assert(r@[r@.len() - 1] == p);
                    }
                }
                assert forall|i: int, j: int| 0 <= i < j < r@.len() implies key_before(
                    spec_position_of(#[trigger] r@[i], b as int), spec_position_of(#[trigger] r@[j], b as int), base) by {
                    if j >= r0.len() {
                        assert(r@[i] == r0[i]);
                        assert(lex_before(spec_position_of(r0[i], b as int), base, ox, oy, oz));
                    } else {
                        assert(r@[i] == r0[i]);
                        assert(r@[j] == r0[j]);
                    }
                }
            }
        }
        r
    }
}

impl<'b> ChunkMesh<'b> {
    /// Whether the visible chunks' meshes, aggregated, can be indexed by `u32`: the loaded
    /// chunks hold at most `u32::MAX` vertices in all.
    pub fn fits_index_range(&self) -> (r: bool)
        ensures
            r == (chunks_verts(self.chunks@, self.chunks@.len() as int) <= u32::MAX),
    {
        let ghost cs = self.chunks@;
        let mut total: u64 = 0;
        let mut c: usize = 0;
        while c < self.chunks.len()
            invariant
                cs == self.chunks@,
                c <= cs.len(),
                total == chunks_verts(cs, c as int),
                total <= u32::MAX,
            decreases cs.len() - c,
        {
            let mesh = &self.chunks[c].mesh;
            let ghost parts = mesh@;
            let mut k: usize = 0;
            while k < mesh.len()
                invariant
                    cs == self.chunks@,
                    c < cs.len(),
                    parts == cs[c as int].mesh@,
                    mesh@ == parts,
                    k <= parts.len(),
                    total == chunks_verts(cs, c as int) + parts_verts(parts, k as int),
                    total <= u32::MAX,
                decreases parts.len() - k,
            {
                let n = mesh[k].0.len() as u64;
                if n > 0xffff_ffffu64 - total {
                    proof {
                        lemma_parts_verts_mono(parts, k + 1, parts.len() as int);
                        lemma_chunks_verts_mono(cs, c + 1, cs.len() as int);
                    }
                    return false;
                }
                total = total + n;
                k = k + 1;
            }
            c = c + 1;
        }
        true
    }

    /// The meshes of the visible chunks, one per render purpose, as
    /// [`ChunkGeneratorMF::aggregate_mesh`] aggregates them.
    pub fn generate_vertices(&mut self) -> (r: Vec<(Vec<ChunkVertex>, Vec<u32>, RenderDataPurpose)>)
        requires
            old(self).wf(),
            chunks_verts(old(self).chunks@, old(self).chunks@.len() as int) <= u32::MAX,
        ensures
            *final(self) == *old(self),
            aggregates(r@, old(self).chunks@),
    {
        proof { lemma_wf_aggregate_fits(self.chunks@); }
        self.generator.aggregate_mesh(self.central_pos, &self.chunks)
    }
}

/// Each axis of a centre moves by at most one unit per update, and toward the player: it
/// goes back only when the player's position, rounded down to the unit, lies behind it,
/// and forward only when it lies ahead.
pub proof fn lemma_axis_step_toward(c: int, p: int, r: int, m: int, b: int)
    requires
        0 <= r,
        1 <= m,
        1 <= b,
    ensures
        axis_step(c, p, r, m, b).0 == c - m || axis_step(c, p, r, m, b).0 == c || axis_step(c, p, r, m, b).0 == c + m,
        axis_step(c, p, r, m, b).1 <==> axis_step(c, p, r, m, b).0 != c,
        axis_step(c, p, r, m, b).0 < c ==> floor_div(p, m) * m < c,
        axis_step(c, p, r, m, b).0 > c ==> floor_div(p, m) * m > c - b,
{
    assert(0 <= r * m) by (nonlinear_arith)
        requires
            0 <= r,
            1 <= m,
    ;
    assert(-b <= (r - 1) * b) by (nonlinear_arith)
        requires
            0 <= r,
            1 <= b,
    ;
}

/// Neighbour links are mutual: when a loaded chunk links another on one side, that one links
/// it back on the opposite side.
pub proof fn lemma_adjacency_symmetric(chunks: Seq<Chunk>, size: int, i: int, j: int, d: FaceDir)
    requires
        chunk_set_wf(chunks, size),
        0 <= i < chunks.len(),
        0 <= j < chunks.len(),
        adjacent(chunks[i].adjacency, d) == Some(chunks[j].hash_pos),
    ensures
        adjacent(chunks[j].adjacency, opposite(d)) == Some(chunks[i].hash_pos),
{
    let ki = chunks[i].hash_pos;
    let kj = chunks[j].hash_pos;
    assert(adjacent(chunks[i].adjacency, d) == expected_link(chunks, ki, d));
    assert(kj == neighbour(ki, d));
    assert(adjacent(chunks[j].adjacency, opposite(d)) == expected_link(chunks, kj, opposite(d)));
    lemma_neighbour_opposite(ki, d);
}

/// Once the border centre has moved, every chunk within the border radius is loaded: a
/// forced refresh right after loads nothing more.
pub proof fn lemma_refresh_after_move<'b>(prev: ChunkMesh<'b>, mode: UpdateChunk, meshes: Seq<GeneratedChunk>,
    next: ChunkMesh<'b>, changed: bool)
    requires
        prev.wf(),
        updated(prev, mode, meshes, next, changed),
        prev.next_state(mode).2,
    ensures
        forall|k: Position| !next.will_load(UpdateChunk::Forced, k),
{
    assert forall|k: Position| !next.will_load(UpdateChunk::Forced, k) by {
        if next.in_cube(UpdateChunk::Forced, k) {
            assert(prev.in_cube(mode, k));
            if has_key(prev.chunks@, k) {
                let i = choose|i: int| 0 <= i < prev.chunks@.len() && (#[trigger] prev.chunks@[i]).hash_pos == k;
                assert(next.chunks@[i].hash_pos == k);
            } else {
                assert(prev.will_load(mode, k));
            }
        }
    }
}

/// After an update that moves the border centre, the drawn chunks are exactly the loaded
/// chunks within the border radius, less those inside the inner radius.
pub proof fn lemma_drawn_after_move<'b>(prev: ChunkMesh<'b>, mode: UpdateChunk, meshes: Seq<GeneratedChunk>,
    next: ChunkMesh<'b>, changed: bool)
    requires
        prev.wf(),
        updated(prev, mode, meshes, next, changed),
        prev.next_state(mode).2,
    ensures
        forall|i: int| 0 <= i < next.chunks@.len() ==> (#[trigger] next.chunks@[i]).visible == (
            prev.in_cube(mode, next.chunks@[i].hash_pos)
            && !prev.inside_inner(mode, next.chunks@[i].pos)),
{
    assert forall|i: int| 0 <= i < next.chunks@.len() implies (#[trigger] next.chunks@[i]).visible == (
        prev.in_cube(mode, next.chunks@[i].hash_pos)
        && !prev.inside_inner(mode, next.chunks@[i].pos)) by {
        if i < prev.chunks@.len() {
            assert(next.chunks@[i].visible == prev.visible_after(mode, prev.chunks@[i]));
        } else {
            assert(prev.will_load(mode, next.chunks@[i].hash_pos));
        }
    }
}

impl<'b> ChunkMesh<'b> {
    /// Every drawn chunk lies within the border radius around the border centre and outside
    /// the inner radius around the inner centre.
    pub open spec fn drawn_within(&self) -> bool {
        forall|i: int| 0 <= i < self.chunks@.len() && (#[trigger] self.chunks@[i]).visible ==> {
            &&& rel_in_cube(self.chunks@[i].hash_pos, spec_position_of(self.central_pos, self.chunk_size as int), self.radius())
            &&& !inside_all(self.inner_central_pos, self.chunks@[i].pos, self.chunk_inner_radius, self.chunk_size as int)
        }
    }
}

/// Updates keep the drawn chunks within the border radius and outside the inner radius:
/// a forced update establishes it, and every update after keeps it, whichever centre moves.
pub proof fn lemma_drawn_within_kept<'b>(prev: ChunkMesh<'b>, mode: UpdateChunk, meshes: Seq<GeneratedChunk>,
    next: ChunkMesh<'b>, changed: bool)
    requires
        prev.wf(),
        updated(prev, mode, meshes, next, changed),
        prev.drawn_within() || mode is Forced,
    ensures
        next.drawn_within(),
{
    let ns = prev.next_state(mode);
    if !ns.2 {
        assert(ns.0 == prev.central_pos) by {
            if let UpdateChunk::NewPos(p) = mode {
                let c = prev.central_pos;
                let r = prev.chunk_outer_update_radius as int;
                let m = prev.border_unit as int;
                let b = prev.chunk_size as int;
                assert(!axis_step(c.x as int, p.x as int, r, m, b).1);
                assert(!axis_step(c.y as int, p.y as int, r, m, b).1);
                assert(!axis_step(c.z as int, p.z as int, r, m, b).1);
            }
        }
    }
    if !ns.3 {
        assert(ns.1 == prev.inner_central_pos) by {
            if let UpdateChunk::NewPos(p) = mode {
                if let Some(r) = prev.chunk_inner_update_radius {
                    let c = prev.inner_central_pos;
                    let b = prev.chunk_size as int;
                    assert(!axis_step(c.x as int, p.x as int, r as int, b, b).1);
                    assert(!axis_step(c.y as int, p.y as int, r as int, b, b).1);
                    assert(!axis_step(c.z as int, p.z as int, r as int, b, b).1);
                }
            }
        }
    }
    assert forall|i: int| 0 <= i < next.chunks@.len() && (#[trigger] next.chunks@[i]).visible implies {
        &&& rel_in_cube(next.chunks@[i].hash_pos, spec_position_of(next.central_pos, next.chunk_size as int), next.radius())
        &&& !inside_all(next.inner_central_pos, next.chunks@[i].pos, next.chunk_inner_radius, next.chunk_size as int)
    } by {
        if !ns.2 && !ns.3 {
            assert(next.chunks@[i] == prev.chunks@[i]);
        } else if i < prev.chunks@.len() {
            assert(next.chunks@[i].visible == prev.visible_after(mode, prev.chunks@[i]));
            if !prev.in_cube(mode, prev.chunks@[i].hash_pos) {
                assert(prev.chunks@[i].visible);
            }
        } else {
            assert(prev.will_load(mode, next.chunks@[i].hash_pos));
        }
    }
}

/// Updates never unload a chunk: every chunk loaded before is loaded after, with its corner
/// and mesh, and each chunk added was not loaded before and has the mesh generated for its
/// corner.
pub proof fn lemma_update_keeps_loaded<'b>(prev: ChunkMesh<'b>, mode: UpdateChunk, meshes: Seq<GeneratedChunk>,
    next: ChunkMesh<'b>, changed: bool)
    requires
        prev.wf(),
        updated(prev, mode, meshes, next, changed),
    ensures
        forall|k: Position| has_key(prev.chunks@, k) ==> #[trigger] has_key(next.chunks@, k),
        forall|i: int| 0 <= i < prev.chunks@.len() ==> (#[trigger] next.chunks@[i]).pos == prev.chunks@[i].pos
            && next.chunks@[i].mesh == prev.chunks@[i].mesh,
        forall|i: int| prev.chunks@.len() <= i < next.chunks@.len() ==>
            !has_key(prev.chunks@, (#[trigger] next.chunks@[i]).hash_pos)
            && next.chunks@[i].mesh == mesh_for(meshes, next.chunks@[i].pos),
{
    assert forall|k: Position| has_key(prev.chunks@, k) implies #[trigger] has_key(next.chunks@, k) by {
        let j = choose|j: int| 0 <= j < prev.chunks@.len() && (#[trigger] prev.chunks@[j]).hash_pos == k;
        if prev.next_state(mode).2 || prev.next_state(mode).3 {
            assert(next.chunks@[j].hash_pos == k);
        } else {
            assert(next.chunks@[j] == prev.chunks@[j]);
        }
    }
}

/// The chunks inside the inner radius are not drawn: after an update that moves either
/// centre, no loaded chunk within the border radius that lies inside the inner radius is
/// drawn.
pub proof fn lemma_inner_radius_hidden<'b>(prev: ChunkMesh<'b>, mode: UpdateChunk, meshes: Seq<GeneratedChunk>,
    next: ChunkMesh<'b>, changed: bool)
    requires
        prev.wf(),
        updated(prev, mode, meshes, next, changed),
        prev.next_state(mode).2 || prev.next_state(mode).3,
    ensures
        forall|i: int| 0 <= i < next.chunks@.len() && prev.in_cube(mode, (#[trigger] next.chunks@[i]).hash_pos)
            && inside_all(next.inner_central_pos, next.chunks@[i].pos, next.chunk_inner_radius, next.chunk_size as int)
            ==> !next.chunks@[i].visible,
{
    assert forall|i: int| 0 <= i < next.chunks@.len() && prev.in_cube(mode, (#[trigger] next.chunks@[i]).hash_pos)
        && inside_all(next.inner_central_pos, next.chunks@[i].pos, next.chunk_inner_radius, next.chunk_size as int)
        implies !next.chunks@[i].visible by {
        if i < prev.chunks@.len() {
            assert(next.chunks@[i].visible == prev.visible_after(mode, prev.chunks@[i]));
        } else {
            assert(prev.will_load(mode, next.chunks@[i].hash_pos));
        }
    }
}

} // verus!
