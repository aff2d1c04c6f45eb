//! Blocks, their culling state, and how their faces map to textures.
use vstd::prelude::*;

verus! {

/// The direction a block face looks to.
#[derive(Copy, Clone, Debug, PartialEq, Eq, Structural)]
pub enum FaceDir {
    FRONT,
    RIGHT,
    BACK,
    LEFT,
    TOP,
    BOTTOM,
}

/// What the renderer draws a block's data into.
#[derive(Copy, Clone, Debug, PartialEq, Eq, Structural)]
pub enum RenderDataPurpose {
    CameraViewProjection,
    BlockTextures,
    TerrainOpaque,
    TerrainTransparent,
    TerrainTranslucent,
    PresentationInpAttachment,
    DebugUI,
    DebugUIInpAttachment,
    Time,
}

/// The shape of a block's mesh.
#[derive(Copy, Clone, Debug, PartialEq, Eq, Structural)]
pub enum MeshType {
    Empty,
    Cube,
    XCross,
    Fluid,
}

/// How much light a block lets through.
#[derive(Copy, Clone, Debug, PartialEq, Eq, Structural)]
pub enum TransparencyType {
    Opaque,
    /// full opacity or no opacity
    Transparent,
    /// partial opacity
    Translucent,
}

/// An index into the block table.
#[derive(Copy, Clone, Debug, Default, PartialEq, Eq, Structural)]
pub struct Block(pub u16);

/// A voxel's culling state: whether and on what condition it is visible.
#[derive(Copy, Clone, Debug, PartialEq, Eq, Structural)]
pub enum BlockCullType {
    Empty,
    /// always visible (not culled) regardless of any adjacent condition
    AlwaysVisible(Block),
    /// visible only if any of its adjacent sides is Empty|AlwaysVisible|BorderVisibleFluid|ObscuredFluid
    BorderVisible0(Block),
    /// a block is adjacent
    BorderVisible1(Block),
    /// two blocks are adjacent
    BorderVisible2(Block),
    /// three blocks are adjacent
    BorderVisible3(Block),
    /// visible only if any of its adjacent sides is Empty|AlwaysVisible
    BorderVisibleFluid0(Block),
    BorderVisibleFluid1(Block),
    BorderVisibleFluid2(Block),
    BorderVisibleFluid3(Block),
    /// a BorderVisible block surrounded by other BorderVisible|Obscured blocks
    Obscured,
    /// a BorderVisibleFluid block surrounded by BorderVisible|BorderVisibleFluid|Obscured|ObscuredFluid blocks
    ObscuredFluid,
}

/// The culling state one step less visible than `b`.
pub open spec fn spec_decrease_visibility(b: BlockCullType) -> BlockCullType {
    match b {
        BlockCullType::BorderVisible0(x) => BlockCullType::BorderVisible1(x),
        BlockCullType::BorderVisible1(x) => BlockCullType::BorderVisible2(x),
        BlockCullType::BorderVisible2(x) => BlockCullType::BorderVisible3(x),
        BlockCullType::BorderVisible3(_) => BlockCullType::Obscured,
        BlockCullType::BorderVisibleFluid0(x) => BlockCullType::BorderVisibleFluid1(x),
        BlockCullType::BorderVisibleFluid1(x) => BlockCullType::BorderVisibleFluid2(x),
        BlockCullType::BorderVisibleFluid2(x) => BlockCullType::BorderVisibleFluid3(x),
        BlockCullType::BorderVisibleFluid3(_) => BlockCullType::ObscuredFluid,
        _ => b,
    }
}

/// A solid voxel hides the faces next to it: an unculled solid block or an obscured one.
pub open spec fn spec_block_obscures(b: BlockCullType) -> bool {
    b is BorderVisible0 || b is Obscured
}

/// A voxel hides the faces of a fluid next to it: solids and fluids, culled or not.
pub open spec fn spec_fluid_obscures(b: BlockCullType) -> bool {
    b is BorderVisibleFluid0 || b is ObscuredFluid || b is BorderVisible0 || b is Obscured
}

/// The block a voxel draws, if it draws one: the unculled solid, unculled fluid and
/// always-visible states.
pub open spec fn spec_drawn_block(b: BlockCullType) -> Option<Block> {
    match b {
        BlockCullType::BorderVisible0(x) => Some(x),
        BlockCullType::BorderVisibleFluid0(x) => Some(x),
        BlockCullType::AlwaysVisible(x) => Some(x),
        _ => None,
    }
}

/// The culling state after `n` steps of decreasing visibility.
pub open spec fn decreased_times(b: BlockCullType, n: nat) -> BlockCullType
    decreases n,
{
    if n == 0 {
        b
    } else {
        spec_decrease_visibility(decreased_times(b, (n - 1) as nat))
    }
}

/// Four steps of decreasing visibility settle every culling state: a border-visible solid
/// ends obscured, a border-visible fluid ends obscured as a fluid, every other state stays
/// as it was, and a further step changes nothing.
pub proof fn lemma_decrease_visibility_settles(b: BlockCullType)
    ensures
        spec_decrease_visibility(decreased_times(b, 4)) == decreased_times(b, 4),
        (b is BorderVisible0 || b is BorderVisible1 || b is BorderVisible2 || b is BorderVisible3)
            ==> decreased_times(b, 4) == BlockCullType::Obscured,
        (b is BorderVisibleFluid0 || b is BorderVisibleFluid1 || b is BorderVisibleFluid2 || b is BorderVisibleFluid3)
            ==> decreased_times(b, 4) == BlockCullType::ObscuredFluid,
        (b is Empty || b is AlwaysVisible || b is Obscured || b is ObscuredFluid) ==> decreased_times(b, 4) == b,
{
    reveal_with_fuel(decreased_times, 5);
}

impl BlockCullType {
    pub fn decrease_visibility(self) -> (r: Self)
        ensures
            r == spec_decrease_visibility(self),
    {
        match self {
            BlockCullType::BorderVisible0(b) => BlockCullType::BorderVisible1(b),
            BlockCullType::BorderVisible1(b) => BlockCullType::BorderVisible2(b),
            BlockCullType::BorderVisible2(b) => BlockCullType::BorderVisible3(b),
            BlockCullType::BorderVisible3(_) => BlockCullType::Obscured,
            BlockCullType::BorderVisibleFluid0(f) => BlockCullType::BorderVisibleFluid1(f),
            BlockCullType::BorderVisibleFluid1(f) => BlockCullType::BorderVisibleFluid2(f),
            BlockCullType::BorderVisibleFluid2(f) => BlockCullType::BorderVisibleFluid3(f),
            BlockCullType::BorderVisibleFluid3(_) => BlockCullType::ObscuredFluid,
            _ => self,
        }
    }

    /// Whether this voxel hides the neighbouring face of a solid block.
    pub fn check_block_obscured(self) -> (r: bool)
        ensures
            r == spec_block_obscures(self),
    {
        match self {
            BlockCullType::BorderVisible0(_) | BlockCullType::Obscured => true,
            _ => false,
        }
    }

    /// Whether this voxel hides the neighbouring face of a fluid block.
    pub fn check_fluid_obscured(self) -> (r: bool)
        ensures
            r == spec_fluid_obscures(self),
    {
        match self {
            BlockCullType::BorderVisibleFluid0(_) | BlockCullType::ObscuredFluid
            | BlockCullType::BorderVisible0(_) | BlockCullType::Obscured => true,
            _ => false,
        }
    }

    /// The block this voxel draws, if any.
    pub fn drawn_block(self) -> (r: Option<Block>)
        ensures
            r == spec_drawn_block(self),
    {
        match self {
            BlockCullType::BorderVisible0(b) => Some(b),
            BlockCullType::BorderVisibleFluid0(b) => Some(b),
            BlockCullType::AlwaysVisible(b) => Some(b),
            _ => None,
        }
    }
}

/// The voxel kinds of the first, single-chunk terrain generator.
#[derive(Copy, Clone, Debug, PartialEq, Eq, Structural)]
pub enum BlockGen {
    Empty,
    Transparent(Block),
    Opaque(Block),
    Obscured,
}

impl BlockGen {
    /// Whether this voxel hides the faces next to it.
    pub fn test_block_obscured(self) -> (r: bool)
        ensures
            r == (self is Opaque || self is Obscured),
    {
        match self {
            BlockGen::Opaque(_) | BlockGen::Obscured => true,
            _ => false,
        }
    }
}

/// Which texture each face of a block shows.
#[derive(Copy, Clone, Debug)]
pub enum TextureMapper<'s> {
    All(&'s str),
    /// top, bottom, lateral
    Lateral(&'s str, &'s str, &'s str),
    /// top, bottom, E (right), S (front), W (left), N (back)
    Unique(&'s str, &'s str, &'s str, &'s str, &'s str, &'s str),
}

/// The texture a mapper shows on the face looking to `dir`.
pub open spec fn spec_face_texture<'s>(m: TextureMapper<'s>, dir: FaceDir) -> &'s str {
    match m {
        TextureMapper::All(t) => t,
        TextureMapper::Lateral(top, bottom, lateral) => match dir {
            FaceDir::TOP => top,
            FaceDir::BOTTOM => bottom,
            _ => lateral,
        },
        TextureMapper::Unique(top, bottom, right, front, left, back) => match dir {
            FaceDir::TOP => top,
            FaceDir::BOTTOM => bottom,
            FaceDir::RIGHT => right,
            FaceDir::FRONT => front,
            FaceDir::LEFT => left,
            FaceDir::BACK => back,
        },
    }
}

impl<'s> TextureMapper<'s> {
    /// The texture of a block drawn without faces of its own (the top one).
    pub fn default(&self) -> (r: &'s str)
        ensures
            r == spec_face_texture(*self, FaceDir::TOP),
    {
        self.top()
    }

    pub fn front(&self) -> (r: &'s str)
        ensures
            r == spec_face_texture(*self, FaceDir::FRONT),
    {
        match self {
            TextureMapper::All(t) => t,
            TextureMapper::Lateral(_, _, t) => t,
            TextureMapper::Unique(_, _, _, t, _, _) => t,
        }
    }

    pub fn back(&self) -> (r: &'s str)
        ensures
            r == spec_face_texture(*self, FaceDir::BACK),
    {
        match self {
            TextureMapper::All(t) => t,
            TextureMapper::Lateral(_, _, t) => t,
            TextureMapper::Unique(_, _, _, _, _, t) => t,
        }
    }

    pub fn left(&self) -> (r: &'s str)
        ensures
            r == spec_face_texture(*self, FaceDir::LEFT),
    {
        match self {
            TextureMapper::All(t) => t,
            TextureMapper::Lateral(_, _, t) => t,
            TextureMapper::Unique(_, _, _, _, t, _) => t,
        }
    }

    pub fn right(&self) -> (r: &'s str)
        ensures
            r == spec_face_texture(*self, FaceDir::RIGHT),
    {
        match self {
            TextureMapper::All(t) => t,
            TextureMapper::Lateral(_, _, t) => t,
            TextureMapper::Unique(_, _, t, _, _, _) => t,
        }
    }

    pub fn top(&self) -> (r: &'s str)
        ensures
            r == spec_face_texture(*self, FaceDir::TOP),
    {
        match self {
            TextureMapper::All(t) => t,
            TextureMapper::Lateral(t, _, _) => t,
            TextureMapper::Unique(t, _, _, _, _, _) => t,
        }
    }

    pub fn bottom(&self) -> (r: &'s str)
        ensures
            r == spec_face_texture(*self, FaceDir::BOTTOM),
    {
        match self {
            TextureMapper::All(t) => t,
            TextureMapper::Lateral(_, t, _) => t,
            TextureMapper::Unique(_, t, _, _, _, _) => t,
        }
    }

    /// The texture shown on the face looking to `dir`.
    pub fn face(&self, dir: FaceDir) -> (r: &'s str)
        ensures
            r == spec_face_texture(*self, dir),
    {
        match dir {
            FaceDir::FRONT => self.front(),
            FaceDir::RIGHT => self.right(),
            FaceDir::BACK => self.back(),
            FaceDir::LEFT => self.left(),
            FaceDir::TOP => self.top(),
            FaceDir::BOTTOM => self.bottom(),
        }
    }
}

/// An entry of the block table.
#[derive(Copy, Clone, Debug)]
pub struct BlockData<'s> {
    pub ident: &'s str,
    pub texture_id: TextureMapper<'s>,
    pub mesh: MeshType,
    pub transparency: TransparencyType,
}

} // verus!
