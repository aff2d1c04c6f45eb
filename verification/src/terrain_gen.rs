//! Terrain generation: which block stands at a point, given the terrain's surface level
//! and floral cover over the point's column.
use vstd::prelude::*;
use crate::block::{Block, BlockCullType};

verus! {

/// Water fills every air voxel at or below this height.
pub const SEA_LEVEL: i32 = 10;
/// Solid voxels at or below this height are sand.
pub const SAND_LEVEL: i32 = 13;
/// The number of blocks the terrain generator places: the block table must hold them all.
pub const TERRAIN_BLOCK_COUNT: usize = 7;

/// What grows on a column's surface.
#[derive(Copy, Clone, Debug, PartialEq, Eq, Structural)]
pub enum Floralness {
    Barren,
    Grass,
    Flower,
}

/// The terrain over one (x, z) column: the surface level, rounded up to a whole block,
/// and the floral cover.
#[derive(Copy, Clone, Debug, PartialEq, Eq, Structural)]
pub struct ColumnSample {
    pub base_level: i32,
    pub floral: Floralness,
}

/// The block at height `y` of a column.
pub open spec fn spec_get_block(y: int, col: ColumnSample) -> BlockCullType {
    let h = col.base_level as int;
    if y >= h + 1 {
        if y <= SEA_LEVEL {
            BlockCullType::BorderVisibleFluid0(Block(6))
        } else {
            BlockCullType::Empty
        }
    } else if y >= h {
        if y <= SEA_LEVEL {
            BlockCullType::BorderVisibleFluid0(Block(6))
        } else {
            match col.floral {
                Floralness::Flower => BlockCullType::AlwaysVisible(Block(5)),
                Floralness::Grass => BlockCullType::AlwaysVisible(Block(4)),
                Floralness::Barren => BlockCullType::Empty,
            }
        }
    } else if y <= SAND_LEVEL {
        BlockCullType::BorderVisible0(Block(3))
    } else if y >= h - 1 {
        BlockCullType::BorderVisible0(Block(0))
    } else if y >= h - 3 {
        BlockCullType::BorderVisible0(Block(1))
    } else {
        BlockCullType::BorderVisible0(Block(2))
    }
}

/// Every block the generator places is in the block table of `TERRAIN_BLOCK_COUNT` entries.
pub open spec fn block_in_table(b: BlockCullType) -> bool {
    match b {
        BlockCullType::AlwaysVisible(x) => (x.0 as int) < TERRAIN_BLOCK_COUNT,
        BlockCullType::BorderVisible0(x) => (x.0 as int) < TERRAIN_BLOCK_COUNT,
        BlockCullType::BorderVisibleFluid0(x) => (x.0 as int) < TERRAIN_BLOCK_COUNT,
        _ => true,
    }
}

/// The block at height `y` of the column `col`.
pub fn get_block(y: i32, col: ColumnSample) -> (r: BlockCullType)
    ensures
        r == spec_get_block(y as int, col),
        block_in_table(r),
{
    let y = y as i64;
    let h = col.base_level as i64;
    if y >= h + 1 {
        if y <= SEA_LEVEL as i64 {
            BlockCullType::BorderVisibleFluid0(Block(6))
        } else {
            BlockCullType::Empty
        }
    } else if y >= h {
        if y <= SEA_LEVEL as i64 {
            BlockCullType::BorderVisibleFluid0(Block(6))
        } else {
            match col.floral {
                Floralness::Flower => BlockCullType::AlwaysVisible(Block(5)),
                Floralness::Grass => BlockCullType::AlwaysVisible(Block(4)),
                Floralness::Barren => BlockCullType::Empty,
            }
        }
    } else if y <= SAND_LEVEL as i64 {
        BlockCullType::BorderVisible0(Block(3))
    } else if y >= h - 1 {
        BlockCullType::BorderVisible0(Block(0))
    } else if y >= h - 3 {
        BlockCullType::BorderVisible0(Block(1))
    } else {
        BlockCullType::BorderVisible0(Block(2))
    }
}

/// The column samples of a rectangle of columns, row by row along z:
/// the column (x, z) is at `(x - min_x) * size_z + (z - min_z)`.
pub struct TerrainColumns {
    pub min_x: i32,
    pub min_z: i32,
    pub size_x: usize,
    pub size_z: usize,
    pub samples: Vec<ColumnSample>,
}

impl TerrainColumns {
    pub open spec fn wf(&self) -> bool {
        self.samples@.len() == self.size_x * self.size_z
    }

    /// Whether the rectangle holds every column with `x0 <= x < x1` and `z0 <= z < z1`.
    pub open spec fn covers(&self, x0: int, x1: int, z0: int, z1: int) -> bool {
        &&& self.min_x <= x0
        &&& x1 <= self.min_x + self.size_x
        &&& self.min_z <= z0
        &&& z1 <= self.min_z + self.size_z
    }

    pub open spec fn has(&self, x: int, z: int) -> bool {
        self.covers(x, x + 1, z, z + 1)
    }

    pub open spec fn col(&self, x: int, z: int) -> ColumnSample {
        self.samples@[(x - self.min_x) * self.size_z + (z - self.min_z)]
    }

    /// The block at the point (x, y, z).
    pub open spec fn block_at(&self, x: int, y: int, z: int) -> BlockCullType {
        spec_get_block(y, self.col(x, z))
    }

    /// The surface level of the column (x, z).
    pub open spec fn height_at(&self, x: int, z: int) -> int {
        self.col(x, z).base_level as int
    }

    pub fn new(min_x: i32, min_z: i32, size_x: usize, size_z: usize, samples: Vec<ColumnSample>) -> (r: Option<Self>)
        ensures
            r is Some <==> samples@.len() == size_x * size_z,
            r matches Some(c) ==> c.wf() && c.min_x == min_x && c.min_z == min_z && c.size_x == size_x
                && c.size_z == size_z && c.samples@ == samples@,
    {
        let n = samples.len();
        if size_x == 0 {
            if n == 0 {
                return Some(TerrainColumns { min_x, min_z, size_x, size_z, samples });
            } else {
                return None;
            }
        }
        if n % size_x != 0 {
            proof {
                if n == size_x * size_z {
                    vstd::arithmetic::div_mod::lemma_mod_multiples_basic(size_z as int, size_x as int);
                    vstd::arithmetic::mul::lemma_mul_is_commutative(size_x as int, size_z as int);
                }
            }
            return None;
        }
        let q = n / size_x;
        proof {
            vstd::arithmetic::div_mod::lemma_fundamental_div_mod(n as int, size_x as int);
            vstd::arithmetic::mul::lemma_mul_is_commutative(size_x as int, q as int);
            if n == size_x * size_z {
                vstd::arithmetic::mul::lemma_mul_is_commutative(size_x as int, size_z as int);
                vstd::arithmetic::div_mod::lemma_div_multiples_vanish(size_z as int, size_x as int);
            }
        }
        if q == size_z {
            Some(TerrainColumns { min_x, min_z, size_x, size_z, samples })
        } else {
            proof {
                if n == size_x * size_z {
                    assert(q == size_z);
                }
            }
            None
        }
    }

    /// The sample of the column (x, z).
    pub fn column(&self, x: i32, z: i32) -> (r: ColumnSample)
        requires
            self.wf(),
            self.has(x as int, z as int),
        ensures
            r == self.col(x as int, z as int),
    {
        let dx = (x as i64 - self.min_x as i64) as usize;
        let dz = (z as i64 - self.min_z as i64) as usize;
        let len = self.samples.len();
        proof {
            assert(dx * self.size_z + dz < self.size_x * self.size_z) by (nonlinear_arith)
                requires
                    dx < self.size_x,
                    dz < self.size_z,
            ;
            assert(dx * self.size_z <= dx * self.size_z + dz);
        }
        let i = dx * self.size_z + dz;
        assert(i == (x - self.min_x) * self.size_z + (z - self.min_z));
        self.samples[i]
    }

    /// The block at the point (x, y, z).
    pub fn get_block(&self, x: i32, y: i32, z: i32) -> (r: BlockCullType)
        requires
            self.wf(),
            self.has(x as int, z as int),
        ensures
            r == self.block_at(x as int, y as int, z as int),
            block_in_table(r),
    {
        get_block(y, self.column(x, z))
    }

    /// The height below which every voxel of the column (x, z) is solid.
    pub fn opaque_block_height_bound_test(&self, x: i32, z: i32) -> (r: i32)
        requires
            self.wf(),
            self.has(x as int, z as int),
        ensures
            r == self.height_at(x as int, z as int),
    {
        self.column(x, z).base_level
    }

    /// The height at which the column (x, z) holds fluid, if it may hold any.
    pub fn fluid_height_existence_bound_test(&self, x: i32, z: i32) -> (r: Option<i32>)
        requires
            self.wf(),
            self.has(x as int, z as int),
        ensures
            r == Some(self.col(x as int, z as int).base_level),
    {
        Some(self.column(x, z).base_level)
    }

    /// The height at which the column (x, z) grows a plant, if it grows one.
    pub fn floral_existence_bound_test(&self, x: i32, z: i32) -> (r: Option<i32>)
        requires
            self.wf(),
            self.has(x as int, z as int),
        ensures
            r == (if self.col(x as int, z as int).floral == Floralness::Barren {
                None
            } else {
                Some(self.col(x as int, z as int).base_level)
            }),
    {
        let c = self.column(x, z);
        match c.floral {
            Floralness::Barren => None,
            _ => Some(c.base_level),
        }
    }
}

} // verus!
