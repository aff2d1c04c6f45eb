//! Texture bookkeeping: the texture id of a name, where each texture lies in the staging
//! buffer, and the extents of the mipmap chain.
use vstd::prelude::*;

verus! {

/// The number of mipmap levels of the block texture array.
pub const TEXTURE_MIPMAP_LEVELS: u32 = 4;

/// The last index `i < n` with `names[i] == name`, if any.
pub open spec fn last_index_of(names: Seq<Seq<char>>, name: Seq<char>, n: int) -> Option<int>
    decreases n,
{
    if n <= 0 {
        None
    } else if names[n - 1] == name {
        Some(n - 1)
    } else {
        last_index_of(names, name, n - 1)
    }
}

/// The texture ids of texture names: the texture loaded `i`-th has id `i`, and a name
/// loaded twice keeps the id of its last load.
#[derive(Clone, Debug)]
pub struct TextureIdMapper {
    pub names: Vec<String>,
}

impl TextureIdMapper {
    pub open spec fn name_seq(&self) -> Seq<Seq<char>> {
        self.names@.map_values(|s: String| s@)
    }

    /// The id of `name`, if a texture of that name was loaded.
    pub open spec fn spec_get(&self, name: Seq<char>) -> Option<u32> {
        match last_index_of(self.name_seq(), name, self.names@.len() as int) {
            Some(i) => Some(i as u32),
            None => None,
        }
    }

    /// The id a face with the texture `name` is drawn with: unknown names fall back to 0.
    pub open spec fn spec_id(&self, name: Seq<char>) -> u32 {
        match self.spec_get(name) {
            Some(i) => i,
            None => 0,
        }
    }

    pub open spec fn wf(&self) -> bool {
        self.names@.len() <= u32::MAX
    }

    pub fn new(names: Vec<String>) -> (r: Self)
        ensures
            r.names@ == names@,
    {
        TextureIdMapper { names }
    }

    /// The id of `name`, if a texture of that name was loaded.
    pub fn get(&self, name: &str) -> (r: Option<u32>)
        requires
            self.wf(),
        ensures
            r == self.spec_get(name@),
    {
        let target = name.to_owned();
        let mut i = self.names.len();
        while i > 0
            invariant
                i <= self.names@.len() <= u32::MAX,
                target@ == name@,
                last_index_of(self.name_seq(), name@, self.names@.len() as int)
                    == last_index_of(self.name_seq(), name@, i as int),
            decreases i,
        {
            assert(self.name_seq()[i - 1] == self.names@[i - 1]@);
            if self.names[i - 1] == target {
                return Some((i - 1) as u32);
            }
            i = i - 1;
        }
        None
    }

    /// The id a face with the texture `name` is drawn with.
    pub fn id(&self, name: &str) -> (r: u32)
        requires
            self.wf(),
        ensures
            r == self.spec_id(name@),
    {
        match self.get(name) {
            Some(i) => i,
            None => 0,
        }
    }
}

proof fn lemma_last_index_of(names: Seq<Seq<char>>, name: Seq<char>, i: int, n: int)
    requires
        0 <= i < n <= names.len(),
        names[i] == name,
        forall|j: int| i < j < n ==> names[j] != name,
    ensures
        last_index_of(names, name, n) == Some(i),
    decreases n,
{
    if n - 1 > i {
        lemma_last_index_of(names, name, i, n - 1);
    }
}

/// The texture loaded `i`-th has the id `i`, unless a texture of the same name is loaded
/// after it.
pub proof fn lemma_mapper_last_load(m: TextureIdMapper, i: int)
    requires
        m.wf(),
        0 <= i < m.names@.len(),
        forall|j: int| i < j < m.names@.len() ==> (#[trigger] m.names@[j])@ != m.names@[i]@,
    ensures
        m.spec_get(m.names@[i]@) == Some(i as u32),
        m.spec_id(m.names@[i]@) == i,
{
    let ns = m.name_seq();
    assert forall|j: int| i < j < m.names@.len() implies ns[j] != m.names@[i]@ by {
        assert(ns[j] == m.names@[j]@);
    }
    assert(ns[i] == m.names@[i]@);
    lemma_last_index_of(ns, m.names@[i]@, i, m.names@.len() as int);
}

/// The size of a texture image.
#[derive(Copy, Clone, Debug, PartialEq, Eq, Structural)]
pub struct Extent2D {
    pub width: u32,
    pub height: u32,
}

/// Where the textures lie in the staging buffer and in the texture array.
pub struct TextureLayout {
    pub extent: Extent2D,
    pub offsets: Vec<usize>,
    pub layer_count: u32,
}

pub open spec fn sum_sizes(sizes: Seq<usize>, k: int) -> int
    decreases k,
{
    if k <= 0 {
        0
    } else {
        sum_sizes(sizes, k - 1) + sizes[k - 1]
    }
}

/// Lays the textures out one after another in the staging buffer: the `k`-th starts where
/// the ones before it end. All textures must share one extent, and there must be one.
pub fn texture_layout(extents: &Vec<Extent2D>, sizes: &Vec<usize>) -> (r: TextureLayout)
    requires
        extents@.len() == sizes@.len(),
        1 <= extents@.len() <= u32::MAX,
        forall|i: int| 0 <= i < extents@.len() ==> #[trigger] extents@[i] == extents@[0],
        sum_sizes(sizes@, sizes@.len() as int) <= usize::MAX,
    ensures
        r.extent == extents@[0],
        r.layer_count == extents@.len(),
        r.offsets@.len() == extents@.len(),
        forall|k: int| 0 <= k < r.offsets@.len() ==> r.offsets@[k] == sum_sizes(sizes@, k),
{
    let n = extents.len();
    let mut offsets: Vec<usize> = Vec::new();
    offsets.push(0);
    let mut i: usize = 0;
    while i < n
        invariant
            n == extents@.len() == sizes@.len(),
            i <= n,
            sum_sizes(sizes@, n as int) <= usize::MAX,
            offsets@.len() == if i < n { i + 1 } else { n as int },
            1 <= offsets@.len(),
            forall|k: int| 0 <= k < offsets@.len() ==> offsets@[k] == sum_sizes(sizes@, k),
        decreases n - i,
    {
        if offsets.len() < n {
            proof { lemma_sum_sizes_mono(sizes@, i as int + 1, n as int); }
            let last = offsets[offsets.len() - 1];
            offsets.push(last + sizes[i]);
        }
        i = i + 1;
    }
    TextureLayout { extent: extents[0], offsets, layer_count: n as u32 }
}

proof fn lemma_sum_sizes_mono(sizes: Seq<usize>, a: int, b: int)
    requires
        0 <= a <= b <= sizes.len(),
    ensures
        sum_sizes(sizes, a) <= sum_sizes(sizes, b),
    decreases b - a,
{
    if a < b {
        lemma_sum_sizes_mono(sizes, a, b - 1);
    }
}

/// The extent of a dimension after `k` halvings that stop at one.
pub open spec fn mip_dim(d: u32, k: nat) -> u32
    decreases k,
{
    if k == 0 {
        d
    } else {
        let p = mip_dim(d, (k - 1) as nat);
        if p > 1 { p / 2 } else { p }
    }
}

/// One blit of the mipmap chain: from level `level - 1`, of extent `src`, to `level`,
/// of extent `dst`.
#[derive(Copy, Clone, Debug, PartialEq, Eq, Structural)]
pub struct MipBlit {
    pub level: u32,
    pub src: Extent2D,
    pub dst: Extent2D,
}

/// The blits that fill the mipmap levels `1..TEXTURE_MIPMAP_LEVELS` from the full image.
pub fn mipmap_blits(extent: Extent2D) -> (r: Vec<MipBlit>)
    ensures
        r@.len() == TEXTURE_MIPMAP_LEVELS - 1,
        forall|k: int| 0 <= k < r@.len() ==> {
            &&& #[trigger] r@[k].level == k + 1
            &&& r@[k].src == Extent2D { width: mip_dim(extent.width, k as nat), height: mip_dim(extent.height, k as nat) }
            &&& r@[k].dst == Extent2D { width: mip_dim(extent.width, (k + 1) as nat), height: mip_dim(extent.height, (k + 1) as nat) }
        },
{
    let mut blits: Vec<MipBlit> = Vec::new();
    let mut mip_width = extent.width;
    let mut mip_height = extent.height;
    let mut i: u32 = 1;
    while i < TEXTURE_MIPMAP_LEVELS
        invariant
            1 <= i <= TEXTURE_MIPMAP_LEVELS,
            blits@.len() == i - 1,
            mip_width == mip_dim(extent.width, (i - 1) as nat),
            mip_height == mip_dim(extent.height, (i - 1) as nat),
            forall|k: int| 0 <= k < blits@.len() ==> {
                &&& #[trigger] blits@[k].level == k + 1
                &&& blits@[k].src == Extent2D { width: mip_dim(extent.width, k as nat), height: mip_dim(extent.height, k as nat) }
                &&& blits@[k].dst == Extent2D { width: mip_dim(extent.width, (k + 1) as nat), height: mip_dim(extent.height, (k + 1) as nat) }
            },
        decreases TEXTURE_MIPMAP_LEVELS - i,
    {
        let src = Extent2D { width: mip_width, height: mip_height };
        if mip_width > 1 {
            mip_width = mip_width / 2;
        }
        if mip_height > 1 {
            mip_height = mip_height / 2;
        }
        let dst = Extent2D { width: mip_width, height: mip_height };
        assert(mip_width == mip_dim(extent.width, i as nat));
        assert(mip_height == mip_dim(extent.height, i as nat));
        let ghost old_blits = blits@;
        blits.push(MipBlit { level: i, src, dst });
        assert forall|k: int| 0 <= k < blits@.len() implies {
            &&& #[trigger] blits@[k].level == k + 1
            &&& blits@[k].src == Extent2D { width: mip_dim(extent.width, k as nat), height: mip_dim(extent.height, k as nat) }
            &&& blits@[k].dst == Extent2D { width: mip_dim(extent.width, (k + 1) as nat), height: mip_dim(extent.height, (k + 1) as nat) }
        } by {
            if k < old_blits.len() {
                assert(blits@[k] == old_blits[k]);
            }
        }
        i = i + 1;
    }
    blits
}

} // verus!
