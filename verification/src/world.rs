//! Sparse voxel payload storage.
//!
//! A [`VoxelWorld`] maps every block coordinate to a payload value. Storage is
//! allocated lazily in 16x16x16 chunks, grouped into 16x16x16 regions that
//! bound the growth of the sparse region list. A block in an unallocated
//! chunk or region reads as the payload's default value; writing allocates
//! the missing chunk and region, and a chunk whose blocks all return to the
//! default value is pruned again, together with its region once the region
//! owns no chunk.

use crate::coords::{
    block_index_of, chunk_slot_of, cube_index, cube_offset, lemma_same_cell_implies_eq,
    scale_down16, Point,
};
use crate::region::Region;
use vstd::arithmetic::div_mod::lemma_div_is_ordered;
use vstd::pervasive::VecAdditionalExecFns;
use vstd::prelude::*;

verus! {

/// The row-major index, within a cuboid of chunk coordinates, of the chunk
/// owning a given block.
spec fn chunk_progress(chunks: Region, p: Point) -> int {
    (p.x as int / 16 - chunks.min.x) * (chunks.sy() * chunks.sz()) + (p.y as int / 16
        - chunks.min.y) * chunks.sz() + (p.z as int / 16 - chunks.min.z)
}

/// Whether a cuboid of chunk coordinates covers exactly the chunks of the
/// blocks of a cuboid volume.
spec fn covers_chunks_of(chunks: Region, volume: Region) -> bool {
    &&& chunks.min.x == volume.min.x as int / 16
    &&& chunks.min.y == volume.min.y as int / 16
    &&& chunks.min.z == volume.min.z as int / 16
    &&& chunks.max.x == volume.max.x as int / 16
    &&& chunks.max.y == volume.max.y as int / 16
    &&& chunks.max.z == volume.max.z as int / 16
}

/// The chunk cuboid covering a block volume holds no more points than the
/// volume itself: flooring both corners cannot widen any axis.
proof fn lemma_chunk_cover_count(volume: Region, chunks: Region)
    requires
        volume.wf(),
        covers_chunks_of(chunks, volume),
    ensures
        chunks.wf(),
        chunks.spec_count() <= volume.spec_count(),
{
    crate::coords::lemma_div16_decompose(volume.min.x as int);
    crate::coords::lemma_div16_decompose(volume.min.y as int);
    crate::coords::lemma_div16_decompose(volume.min.z as int);
    crate::coords::lemma_div16_decompose(volume.max.x as int);
    crate::coords::lemma_div16_decompose(volume.max.y as int);
    crate::coords::lemma_div16_decompose(volume.max.z as int);
    lemma_div_is_ordered(volume.min.x as int, volume.max.x as int, 16);
    lemma_div_is_ordered(volume.min.y as int, volume.max.y as int, 16);
    lemma_div_is_ordered(volume.min.z as int, volume.max.z as int, 16);
    assert(chunks.spec_count() <= volume.spec_count()) by (nonlinear_arith)
        requires
            1 <= chunks.sx() <= volume.sx(),
            1 <= chunks.sy() <= volume.sy(),
            1 <= chunks.sz() <= volume.sz(),
            chunks.spec_count() == chunks.sx() * chunks.sy() * chunks.sz(),
            volume.spec_count() == volume.sx() * volume.sy() * volume.sz(),
    ;
}

/// For a block of the volume, the owning chunk lies in the covering chunk
/// cuboid, its progress index is a valid index of that cuboid, and the cuboid
/// point at that index is exactly the owning chunk's coordinates.
proof fn lemma_chunk_progress_facts(volume: Region, chunks: Region, p: Point)
    requires
        volume.wf(),
        chunks.wf(),
        covers_chunks_of(chunks, volume),
        volume.spec_contains(p),
    ensures
        0 <= chunk_progress(chunks, p) < chunks.spec_count(),
        chunks.spec_point(chunk_progress(chunks, p)).x == p.x as int / 16,
        chunks.spec_point(chunk_progress(chunks, p)).y == p.y as int / 16,
        chunks.spec_point(chunk_progress(chunks, p)).z == p.z as int / 16,
{
    lemma_div_is_ordered(volume.min.x as int, p.x as int, 16);
    lemma_div_is_ordered(p.x as int, volume.max.x as int, 16);
    lemma_div_is_ordered(volume.min.y as int, p.y as int, 16);
    lemma_div_is_ordered(p.y as int, volume.max.y as int, 16);
    lemma_div_is_ordered(volume.min.z as int, p.z as int, 16);
    lemma_div_is_ordered(p.z as int, volume.max.z as int, 16);
    let cp = Point {
        x: (p.x as int / 16) as i32,
        y: (p.y as int / 16) as i32,
        z: (p.z as int / 16) as i32,
    };
    assert(chunks.spec_contains(cp));
    chunks.lemma_index_of_bounds(cp);
    chunks.lemma_point_index_roundtrip(cp);
    assert(chunks.spec_index_of(cp) == chunk_progress(chunks, p));
}

/// Payload types storable in a voxel world: copyable values with a
/// distinguished default that all unallocated space reads as.
pub trait BlockData: Copy + Sized {
    /// The default value, as a specification-level constant.
    spec fn spec_default() -> Self;

    /// Returns the default value.
    fn default_value() -> (r: Self)
        ensures
            r == Self::spec_default(),
    ;

    /// Tests whether this value equals the default value.
    fn is_default(&self) -> (b: bool)
        ensures
            b == (*self == Self::spec_default()),
    ;
}

impl BlockData for u8 {
    open spec fn spec_default() -> u8 {
        0u8
    }

    fn default_value() -> u8 {
        0u8
    }

    fn is_default(&self) -> bool {
        *self == 0u8
    }
}

impl BlockData for u16 {
    open spec fn spec_default() -> u16 {
        0u16
    }

    fn default_value() -> u16 {
        0u16
    }

    fn is_default(&self) -> bool {
        *self == 0u16
    }
}

impl BlockData for u32 {
    open spec fn spec_default() -> u32 {
        0u32
    }

    fn default_value() -> u32 {
        0u32
    }

    fn is_default(&self) -> bool {
        *self == 0u32
    }
}

impl BlockData for i32 {
    open spec fn spec_default() -> i32 {
        0i32
    }

    fn default_value() -> i32 {
        0i32
    }

    fn is_default(&self) -> bool {
        *self == 0i32
    }
}

impl BlockData for u64 {
    open spec fn spec_default() -> u64 {
        0u64
    }

    fn default_value() -> u64 {
        0u64
    }

    fn is_default(&self) -> bool {
        *self == 0u64
    }
}

impl BlockData for bool {
    open spec fn spec_default() -> bool {
        false
    }

    fn default_value() -> bool {
        false
    }

    fn is_default(&self) -> bool {
        *self == false
    }
}

/// Specification-level access to the coordinate a sparse entry is stored
/// under.
pub trait Keyed {
    /// The coordinate key of this entry.
    spec fn key(self) -> Point;
}

/// Whether an entry is stored under the given coordinate triple.
pub open spec fn key_matches<R: Keyed>(r: R, x: int, y: int, z: int) -> bool {
    r.key().x == x && r.key().y == y && r.key().z == z
}

/// The index of the first entry stored under the given coordinate triple,
/// mirroring a linear scan of the entry list.
pub open spec fn find_key<R: Keyed>(s: Seq<R>, x: int, y: int, z: int) -> Option<int>
    decreases s.len(),
{
    if s.len() == 0 {
        None
    } else if key_matches(s[0], x, y, z) {
        Some(0int)
    } else {
        match find_key(s.subrange(1, s.len() as int), x, y, z) {
            None => None,
            Some(i) => Some(i + 1),
        }
    }
}

/// The first-match characterization of [`find_key`]: it returns `None` when
/// no entry matches, and otherwise the least matching index.
pub proof fn lemma_find_key_props<R: Keyed>(s: Seq<R>, x: int, y: int, z: int)
    ensures
        match find_key(s, x, y, z) {
            None => forall|j: int| 0 <= j < s.len() ==> !key_matches(#[trigger] s[j], x, y, z),
            Some(i) => 0 <= i < s.len() && key_matches(s[i], x, y, z) && forall|j: int|
                0 <= j < i ==> !key_matches(#[trigger] s[j], x, y, z),
        },
    decreases s.len(),
{
    if s.len() == 0 {
    } else if key_matches(s[0], x, y, z) {
    } else {
        let rest = s.subrange(1, s.len() as int);
        lemma_find_key_props(rest, x, y, z);
        assert(forall|j: int| 1 <= j < s.len() ==> s[j] == rest[j - 1]);
    }
}

/// A first match pins the result of [`find_key`] down: if the entry at `i`
/// matches and no earlier entry does, the scan returns exactly `i`.
pub proof fn lemma_find_key_at<R: Keyed>(s: Seq<R>, x: int, y: int, z: int, i: int)
    requires
        0 <= i < s.len(),
        key_matches(s[i], x, y, z),
        forall|j: int| 0 <= j < i ==> !key_matches(#[trigger] s[j], x, y, z),
    ensures
        find_key(s, x, y, z) == Some(i),
{
    lemma_find_key_props(s, x, y, z);
    match find_key(s, x, y, z) {
        None => {
            assert(!key_matches(s[i], x, y, z));
        },
        Some(k) => {
            if k < i {
                assert(!key_matches(s[k], x, y, z));
            } else if i < k {
                assert(!key_matches(s[i], x, y, z));
            }
        },
    }
}

/// When no entry matches, the scan returns `None`.
pub proof fn lemma_find_key_none<R: Keyed>(s: Seq<R>, x: int, y: int, z: int)
    requires
        forall|j: int| 0 <= j < s.len() ==> !key_matches(#[trigger] s[j], x, y, z),
    ensures
        find_key(s, x, y, z) is None,
{
    lemma_find_key_props(s, x, y, z);
    match find_key(s, x, y, z) {
        None => {},
        Some(k) => {
            assert(!key_matches(s[k], x, y, z));
        },
    }
}

/// Two entry lists with pointwise equal keys are scanned identically.
pub proof fn lemma_find_key_eq_keys<R: Keyed>(s1: Seq<R>, s2: Seq<R>, x: int, y: int, z: int)
    requires
        s1.len() == s2.len(),
        forall|j: int| 0 <= j < s1.len() ==> (#[trigger] s1[j]).key() == (#[trigger] s2[j]).key(),
    ensures
        find_key(s1, x, y, z) == find_key(s2, x, y, z),
{
    lemma_find_key_props(s1, x, y, z);
    lemma_find_key_props(s2, x, y, z);
    match find_key(s1, x, y, z) {
        None => {
            match find_key(s2, x, y, z) {
                None => {},
                Some(k) => {
                    assert(!key_matches(s1[k], x, y, z));
                },
            }
        },
        Some(i) => {
            match find_key(s2, x, y, z) {
                None => {
                    assert(!key_matches(s2[i], x, y, z));
                },
                Some(k) => {
                    if k < i {
                        assert(!key_matches(s1[k], x, y, z));
                    } else if i < k {
                        assert(!key_matches(s2[i], x, y, z));
                    }
                },
            }
        },
    }
}

/// Appending an entry leaves every earlier scan result unchanged, and a scan
/// that found nothing now finds the new entry exactly when it matches.
pub proof fn lemma_find_key_push<R: Keyed>(s: Seq<R>, r: R, x: int, y: int, z: int)
    ensures
        find_key(s.push(r), x, y, z) == (match find_key(s, x, y, z) {
            Some(i) => Some(i),
            None => if key_matches(r, x, y, z) {
                Some(s.len() as int)
            } else {
                None
            },
        }),
{
    lemma_find_key_props(s, x, y, z);
    let s2 = s.push(r);
    assert(forall|j: int| 0 <= j < s.len() ==> s2[j] == s[j]);
    match find_key(s, x, y, z) {
        Some(i) => {
            lemma_find_key_at(s2, x, y, z, i);
        },
        None => {
            if key_matches(r, x, y, z) {
                lemma_find_key_at(s2, x, y, z, s.len() as int);
            } else {
                lemma_find_key_none(s2, x, y, z);
            }
        },
    }
}

/// Removing an entry from a list with pairwise distinct keys shifts the scan
/// result past the removal point, and a scan that found exactly the removed
/// entry now finds nothing.
pub proof fn lemma_find_key_remove<R: Keyed>(s: Seq<R>, ri: int, x: int, y: int, z: int)
    requires
        0 <= ri < s.len(),
        forall|i: int, j: int|
            0 <= i < j < s.len() ==> (#[trigger] s[i]).key() != (#[trigger] s[j]).key(),
    ensures
        find_key(s.remove(ri), x, y, z) == (match find_key(s, x, y, z) {
            None => None::<int>,
            Some(i) => if i == ri {
                None
            } else if i < ri {
                Some(i)
            } else {
                Some(i - 1)
            },
        }),
{
    lemma_find_key_props(s, x, y, z);
    let s2 = s.remove(ri);
    assert(forall|j: int| 0 <= j < ri ==> s2[j] == s[j]);
    assert(forall|j: int| ri <= j < s2.len() ==> s2[j] == s[j + 1]);
    match find_key(s, x, y, z) {
        None => {
            assert forall|j: int| 0 <= j < s2.len() implies !key_matches(#[trigger] s2[j], x, y, z) by {
                if j < ri {
                    assert(!key_matches(s[j], x, y, z));
                } else {
                    assert(!key_matches(s[j + 1], x, y, z));
                }
            }
            lemma_find_key_none(s2, x, y, z);
        },
        Some(i) => {
            if i == ri {
                assert forall|j: int| 0 <= j < s2.len() implies !key_matches(
                    #[trigger] s2[j],
                    x,
                    y,
                    z,
                ) by {
                    let jo = if j < ri {
                        j
                    } else {
                        j + 1
                    };
                    assert(s2[j] == s[jo]);
                    if key_matches(s[jo], x, y, z) {
                        assert(s[jo].key() == s[ri].key());
                    }
                }
                lemma_find_key_none(s2, x, y, z);
            } else if i < ri {
                lemma_find_key_at(s2, x, y, z, i);
            } else {
                assert forall|j: int| 0 <= j < i - 1 implies !key_matches(
                    #[trigger] s2[j],
                    x,
                    y,
                    z,
                ) by {
                    if j < ri {
                        assert(!key_matches(s[j], x, y, z));
                    } else {
                        assert(!key_matches(s[j + 1], x, y, z));
                    }
                }
                assert(s2[i - 1] == s[i]);
                lemma_find_key_at(s2, x, y, z, i - 1);
            }
        },
    }
}

/// In a list with pairwise distinct keys, any matching entry is the one the
/// scan returns.
pub proof fn lemma_find_key_unique_at<R: Keyed>(s: Seq<R>, x: int, y: int, z: int, i: int)
    requires
        0 <= i < s.len(),
        key_matches(s[i], x, y, z),
        forall|a: int, b: int|
            0 <= a < b < s.len() ==> (#[trigger] s[a]).key() != (#[trigger] s[b]).key(),
    ensures
        find_key(s, x, y, z) == Some(i),
{
    assert forall|j: int| 0 <= j < i implies !key_matches(#[trigger] s[j], x, y, z) by {
        if key_matches(s[j], x, y, z) {
            assert(s[j].key() == s[i].key());
        }
    }
    lemma_find_key_at(s, x, y, z, i);
}

/// A single 16x16x16 grid of payload values, stored densely and indexed by
/// the block offset `(x % 16) * 256 + (y % 16) * 16 + (z % 16)`.
pub struct VoxelChunk<T: BlockData> {
    /// The 4096 payload values of this chunk.
    blocks: Vec<T>,
}

impl<T: BlockData> VoxelChunk<T> {
    /// A stored chunk always holds exactly 4096 values, at least one of which
    /// is not the default: an all-default chunk is never kept.
    pub closed spec fn wf(self) -> bool {
        &&& self.blocks@.len() == 4096
        &&& exists|k: int| 0 <= k < 4096 && self.blocks@[k] != T::spec_default()
    }

    /// The stored values.
    pub closed spec fn view(self) -> Seq<T> {
        self.blocks@
    }

    /// Creates a column of 4096 unallocated chunk slots.
    fn none_slots() -> (v: Vec<Option<VoxelChunk<T>>>)
        ensures
            v@.len() == 4096,
            forall|k: int| 0 <= k < 4096 ==> v@[k] is None,
    {
        let mut chunks: Vec<Option<VoxelChunk<T>>> = Vec::new();
        while chunks.len() < 4096
            invariant
                chunks@.len() <= 4096,
                forall|k: int| 0 <= k < chunks@.len() ==> chunks@[k] is None,
            decreases 4096 - chunks@.len(),
        {
            chunks.push(None);
        }
        chunks
    }

    /// Creates a chunk filled with the default value.
    fn filled() -> (c: VoxelChunk<T>)
        ensures
            c.view().len() == 4096,
            forall|k: int| 0 <= k < 4096 ==> c.view()[k] == T::spec_default(),
    {
        let mut blocks: Vec<T> = Vec::new();
        while blocks.len() < 4096
            invariant
                blocks@.len() <= 4096,
                forall|k: int| 0 <= k < blocks@.len() ==> blocks@[k] == T::spec_default(),
            decreases 4096 - blocks@.len(),
        {
            blocks.push(T::default_value());
        }
        VoxelChunk { blocks }
    }

    /// Tests whether every value in the chunk is the default value.
    fn all_default(&self) -> (b: bool)
        requires
            self.view().len() == 4096,
        ensures
            b == forall|k: int| 0 <= k < 4096 ==> self.view()[k] == T::spec_default(),
    {
        let mut i: usize = 0;
        while i < 4096
            invariant
                i <= 4096,
                self.view().len() == 4096,
                forall|k: int| 0 <= k < i ==> self.view()[k] == T::spec_default(),
            decreases 4096 - i,
        {
            if !self.blocks[i].is_default() {
                return false;
            }
            i += 1;
        }
        true
    }
}

/// A single 16x16x16 grid of optionally-allocated chunks, stored under its
/// region coordinates.
pub struct VoxelRegion<T: BlockData> {
    /// The 4096 chunk slots of this region, indexed by the chunk offset
    /// within the region.
    chunks: Vec<Option<VoxelChunk<T>>>,
    /// The region coordinates this region is stored under.
    region_coords: Point,
}

impl<T: BlockData> Keyed for VoxelRegion<T> {
    closed spec fn key(self) -> Point {
        self.region_coords
    }
}

impl<T: BlockData> VoxelRegion<T> {
    /// A stored region always holds exactly 4096 chunk slots, owns at least
    /// one chunk, and every owned chunk is well formed: an empty region is
    /// never kept.
    pub closed spec fn wf(self) -> bool {
        &&& self.chunks@.len() == 4096
        &&& exists|k: int| 0 <= k < 4096 && self.chunks@[k] is Some
        &&& forall|k: int|
            0 <= k < 4096 ==> match #[trigger] self.chunks@[k] {
                Some(ch) => ch.wf(),
                None => true,
            }
    }

    /// The stored chunk slots.
    pub closed spec fn slots(self) -> Seq<Option<VoxelChunk<T>>> {
        self.chunks@
    }

    /// Tests whether the region owns no chunk at all.
    fn is_empty(&self) -> (b: bool)
        requires
            self.slots().len() == 4096,
        ensures
            b == forall|k: int| 0 <= k < 4096 ==> self.slots()[k] is None,
    {
        let mut i: usize = 0;
        while i < 4096
            invariant
                i <= 4096,
                self.slots().len() == 4096,
                forall|k: int| 0 <= k < i ==> self.slots()[k] is None,
            decreases 4096 - i,
        {
            if self.chunks[i].is_some() {
                return false;
            }
            i += 1;
        }
        true
    }
}

/// A sparse, practically unbounded voxel world mapping each block coordinate
/// to a payload value, with the payload's default standing for all
/// unallocated space.
pub struct VoxelWorld<T: BlockData> {
    /// The allocated regions, each stored under a distinct region coordinate.
    regions: Vec<VoxelRegion<T>>,
}

impl<T: BlockData> VoxelWorld<T> {
    /// Internal consistency of the sparse index: region coordinates are
    /// unique, and every stored region (and chunk in it) is well formed and
    /// nonempty.
    pub closed spec fn wf(self) -> bool {
        &&& forall|i: int| 0 <= i < self.regions@.len() ==> (#[trigger] self.regions@[i]).wf()
        &&& forall|i: int, j: int|
            0 <= i < j < self.regions@.len() ==> (#[trigger] self.regions@[i]).region_coords != (
            #[trigger] self.regions@[j]).region_coords
    }

    /// The stored chunk contents at the given chunk coordinates, if that
    /// chunk is allocated.
    pub closed spec fn chunk_view(self, cx: int, cy: int, cz: int) -> Option<Seq<T>> {
        match find_key(self.regions@, cx / 16, cy / 16, cz / 16) {
            None => None,
            Some(ri) => match self.regions@[ri].chunks@[crate::coords::lin16(
                cx % 16,
                cy % 16,
                cz % 16,
            )] {
                None => None,
                Some(ch) => Some(ch.blocks@),
            },
        }
    }

    /// Whether the chunk at the given chunk coordinates is allocated.
    pub open spec fn has_chunk(self, c: Point) -> bool {
        self.chunk_view(c.x as int, c.y as int, c.z as int) is Some
    }

    /// Whether a region is allocated at the given region coordinates.
    pub closed spec fn has_region(self, rc: Point) -> bool {
        find_key(self.regions@, rc.x as int, rc.y as int, rc.z as int) is Some
    }

    /// The number of allocated regions.
    pub closed spec fn spec_region_count(self) -> int {
        self.regions@.len() as int
    }

    /// The value stored at a block position: the content of its chunk at the
    /// block's offset, or the default value if the chunk is unallocated.
    pub open spec fn spec_get(self, p: Point) -> T {
        match self.chunk_view(p.x as int / 16, p.y as int / 16, p.z as int / 16) {
            None => T::spec_default(),
            Some(blocks) => blocks[block_index_of(p)],
        }
    }

    /// Creates an empty world: every block reads as the default value and no
    /// chunk or region is allocated.
    pub fn new() -> (w: VoxelWorld<T>)
        ensures
            w.wf(),
            forall|p: Point| w.spec_get(p) == T::spec_default(),
            forall|c: Point| !w.has_chunk(c),
            w.spec_region_count() == 0,
    {
        let w = VoxelWorld { regions: Vec::new() };
        proof {
            assert forall|p: Point| w.spec_get(p) == T::spec_default() by {
                assert(find_key(w.regions@, p.x as int / 16 / 16, p.y as int / 16 / 16, p.z as int / 16 / 16)
                    is None);
            }
            assert forall|c: Point| !w.has_chunk(c) by {
                assert(find_key(w.regions@, c.x as int / 16, c.y as int / 16, c.z as int / 16)
                    is None);
            }
        }
        w
    }

    /// The number of allocated regions, exposed so that sparseness is
    /// observable from outside.
    pub fn region_count(&self) -> (n: usize)
        ensures
            n == self.spec_region_count(),
    {
        self.regions.len()
    }

    /// Returns the index of the stored region with the given region
    /// coordinates, mirroring [`find_key`] exactly.
    fn find_region_index(&self, rc: Point) -> (r: Option<usize>)
        ensures
            match r {
                None => find_key(self.regions@, rc.x as int, rc.y as int, rc.z as int) is None,
                Some(i) => i < self.regions@.len() && find_key(
                    self.regions@,
                    rc.x as int,
                    rc.y as int,
                    rc.z as int,
                ) == Some(i as int),
            },
    {
        let mut i: usize = 0;
        while i < self.regions.len()
            invariant
                i <= self.regions@.len(),
                forall|j: int|
                    0 <= j < i ==> !key_matches(
                        #[trigger] self.regions@[j],
                        rc.x as int,
                        rc.y as int,
                        rc.z as int,
                    ),
            decreases self.regions@.len() - i,
        {
            if self.regions[i].region_coords == rc {
                proof {
                    lemma_find_key_at(self.regions@, rc.x as int, rc.y as int, rc.z as int, i as int);
                }
                return Some(i);
            }
            i += 1;
        }
        proof {
            lemma_find_key_none(self.regions@, rc.x as int, rc.y as int, rc.z as int);
        }
        None
    }

    /// Whether the chunk at the given chunk coordinates is currently
    /// allocated, exposed so that sparseness is observable from outside.
    pub fn has_chunk_at(&self, chunk_coords: Point) -> (b: bool)
        requires
            self.wf(),
        ensures
            b == self.has_chunk(chunk_coords),
    {
        let rc = scale_down16(&chunk_coords);
        let slot: usize = cube_index(&chunk_coords);
        match self.find_region_index(rc) {
            None => false,
            Some(ri) => self.regions[ri].chunks[slot].is_some(),
        }
    }

    /// Gets the block data at the given block position.
    ///
    /// If the block position is not within an allocated chunk, the default
    /// value for the block data is returned. Reading never fails.
    pub fn get_block_data(&self, block_pos: Point) -> (r: T)
        requires
            self.wf(),
        ensures
            r == self.spec_get(block_pos),
    {
        let chunk_coords = scale_down16(&block_pos);
        let rc = scale_down16(&chunk_coords);
        let slot: usize = cube_index(&chunk_coords);
        let bi: usize = cube_index(&block_pos);
        match self.find_region_index(rc) {
            None => T::default_value(),
            Some(ri) => match &self.regions[ri].chunks[slot] {
                None => T::default_value(),
                Some(chunk) => chunk.blocks[bi],
            },
        }
    }
    /// Gets the data from a cuboid volume of blocks all at once.
    ///
    /// The result holds one value per block of the (inclusive) volume, where
    /// the block at offset `(x, y, z)` from the volume's minimum corner is at
    /// index `x * sizeY * sizeZ + y * sizeZ + z`. Every chunk overlapping the
    /// volume is located once, and all its requested blocks are copied out of
    /// it; blocks of unallocated chunks are filled with the default value, so
    /// the batch read agrees with [`Self::get_block_data`] at every point.
    pub fn get_block_region(&self, volume: Region) -> (data: Vec<T>)
        requires
            self.wf(),
            volume.wf(),
            volume.spec_count() <= usize::MAX,
        ensures
            data@.len() == volume.spec_count(),
            forall|i: int|
                0 <= i < data@.len() ==> #[trigger] data@[i] == self.spec_get(
                    volume.spec_point(i),
                ),
    {
        let vol: usize = volume.count();
        let mut data: Vec<T> = Vec::new();
        while data.len() < vol
            invariant
                data@.len() <= vol,
                forall|k: int| 0 <= k < data@.len() ==> #[trigger] data@[k] == T::spec_default(),
            decreases vol - data@.len(),
        {
            data.push(T::default_value());
        }
        let cmin = scale_down16(&volume.min);
        let cmax = scale_down16(&volume.max);
        proof {
            lemma_div_is_ordered(volume.min.x as int, volume.max.x as int, 16);
            lemma_div_is_ordered(volume.min.y as int, volume.max.y as int, 16);
            lemma_div_is_ordered(volume.min.z as int, volume.max.z as int, 16);
        }
        let chunks = Region::from_points(cmin, cmax);
        proof {
            lemma_chunk_cover_count(volume, chunks);
        }
        let ccount: usize = chunks.count();
        proof {
            assert forall|i: int| 0 <= i < data@.len() implies #[trigger] data@[i] == (
            if chunk_progress(chunks, volume.spec_point(i)) < 0 {
                self.spec_get(volume.spec_point(i))
            } else {
                T::spec_default()
            }) by {
                volume.lemma_index_point_roundtrip(i);
                lemma_chunk_progress_facts(volume, chunks, volume.spec_point(i));
            }
        }
        let mut ci: usize = 0;
        while ci < ccount
            invariant
                self.wf(),
                volume.wf(),
                volume.spec_count() <= usize::MAX,
                data@.len() == volume.spec_count(),
                chunks.wf(),
                covers_chunks_of(chunks, volume),
                ccount == chunks.spec_count(),
                ci <= ccount,
                -0x800_0000 <= chunks.min.x < 0x800_0000,
                -0x800_0000 <= chunks.min.y < 0x800_0000,
                -0x800_0000 <= chunks.min.z < 0x800_0000,
                -0x800_0000 <= chunks.max.x < 0x800_0000,
                -0x800_0000 <= chunks.max.y < 0x800_0000,
                -0x800_0000 <= chunks.max.z < 0x800_0000,
                forall|i: int|
                    0 <= i < data@.len() ==> #[trigger] data@[i] == (if chunk_progress(
                        chunks,
                        volume.spec_point(i),
                    ) < ci as int {
                        self.spec_get(volume.spec_point(i))
                    } else {
                        T::spec_default()
                    }),
            decreases ccount - ci,
        {
            let cpos = chunks.index_to_point(ci);
            match self.find_chunk(cpos) {
                None => {
                    proof {
                        assert forall|i: int| 0 <= i < data@.len() implies #[trigger] data@[i] == (
                        if chunk_progress(chunks, volume.spec_point(i)) < ci as int + 1 {
                            self.spec_get(volume.spec_point(i))
                        } else {
                            T::spec_default()
                        }) by {
                            let p = volume.spec_point(i);
                            volume.lemma_index_point_roundtrip(i);
                            if chunk_progress(chunks, p) == ci as int {
                                lemma_chunk_progress_facts(volume, chunks, p);
                                assert(cpos.x == p.x as int / 16 && cpos.y == p.y as int / 16
                                    && cpos.z == p.z as int / 16);
                                assert(self.spec_get(p) == T::spec_default());
                            }
                        }
                    }
                },
                Some(chunk) => {
                    let mut b: usize = 0;
                    while b < 4096
                        invariant
                            self.wf(),
                            volume.wf(),
                            volume.spec_count() <= usize::MAX,
                            data@.len() == volume.spec_count(),
                            chunks.wf(),
                            covers_chunks_of(chunks, volume),
                            ccount == chunks.spec_count(),
                            ci < ccount,
                            b <= 4096,
                            -0x800_0000 <= chunks.min.x < 0x800_0000,
                            -0x800_0000 <= chunks.min.y < 0x800_0000,
                            -0x800_0000 <= chunks.min.z < 0x800_0000,
                            -0x800_0000 <= chunks.max.x < 0x800_0000,
                            -0x800_0000 <= chunks.max.y < 0x800_0000,
                            -0x800_0000 <= chunks.max.z < 0x800_0000,
                            cpos == chunks.spec_point(ci as int),
                            chunks.spec_contains(cpos),
                            chunks.spec_index_of(cpos) == ci as int,
                            self.chunk_view(cpos.x as int, cpos.y as int, cpos.z as int) == Some(
                                chunk.blocks@,
                            ),
                            chunk.blocks@.len() == 4096,
                            forall|i: int|
                                0 <= i < data@.len() ==> #[trigger] data@[i] == (if chunk_progress(
                                    chunks,
                                    volume.spec_point(i),
                                ) < ci as int || (chunk_progress(chunks, volume.spec_point(i))
                                    == ci as int && block_index_of(volume.spec_point(i))
                                    < b as int) {
                                    self.spec_get(volume.spec_point(i))
                                } else {
                                    T::spec_default()
                                }),
                        decreases 4096 - b,
                    {
                        let local = cube_offset(b);
                        let bp = Point {
                            x: cpos.x * 16 + local.x,
                            y: cpos.y * 16 + local.y,
                            z: cpos.z * 16 + local.z,
                        };
                        proof {
                            crate::coords::lemma_cube_compose(
                                cpos,
                                local.x as int,
                                local.y as int,
                                local.z as int,
                            );
                            assert(block_index_of(bp) == b);
                        }
                        if volume.contains(bp) {
                            match volume.point_to_index(bp) {
                                Ok(di) => {
                                    proof {
                                        volume.lemma_index_of_bounds(bp);
                                        volume.lemma_point_index_roundtrip(bp);
                                    }
                                    let v = chunk.blocks[b];
                                    data.set(di, v);
                                    proof {
                                        assert(volume.spec_point(di as int) == bp);
                                        assert(data@[di as int] == self.spec_get(bp));
                                        assert forall|i: int|
                                            0 <= i < data@.len() implies #[trigger] data@[i] == (
                                        if chunk_progress(chunks, volume.spec_point(i)) < ci as int
                                            || (chunk_progress(chunks, volume.spec_point(i))
                                            == ci as int && block_index_of(volume.spec_point(i))
                                            < b as int + 1) {
                                            self.spec_get(volume.spec_point(i))
                                        } else {
                                            T::spec_default()
                                        }) by {
                                            let p = volume.spec_point(i);
                                            volume.lemma_index_point_roundtrip(i);
                                            if i != di as int {
                                                if chunk_progress(chunks, p) == ci as int
                                                    && block_index_of(p) == b as int {
                                                    lemma_chunk_progress_facts(volume, chunks, p);
                                                    crate::coords::lemma_same_chunk_cell_implies_eq(
                                                        p,
                                                        bp,
                                                    );
                                                    assert(false);
                                                }
                                            }
                                        }
                                    }
                                },
                                Err(_) => {
                                    proof {
                                        assert(false);
                                    }
                                },
                            }
                        } else {
                            proof {
                                assert forall|i: int|
                                    0 <= i < data@.len() implies #[trigger] data@[i] == (
                                if chunk_progress(chunks, volume.spec_point(i)) < ci as int || (
                                chunk_progress(chunks, volume.spec_point(i)) == ci as int
                                    && block_index_of(volume.spec_point(i)) < b as int + 1) {
                                    self.spec_get(volume.spec_point(i))
                                } else {
                                    T::spec_default()
                                }) by {
                                    let p = volume.spec_point(i);
                                    volume.lemma_index_point_roundtrip(i);
                                    if chunk_progress(chunks, p) == ci as int && block_index_of(p)
                                        == b as int {
                                        lemma_chunk_progress_facts(volume, chunks, p);
                                        crate::coords::lemma_same_chunk_cell_implies_eq(p, bp);
                                        assert(false);
                                    }
                                }
                            }
                        }
                        b += 1;
                    }
                    proof {
                        assert forall|i: int| 0 <= i < data@.len() implies #[trigger] data@[i] == (
                        if chunk_progress(chunks, volume.spec_point(i)) < ci as int + 1 {
                            self.spec_get(volume.spec_point(i))
                        } else {
                            T::spec_default()
                        }) by {
                            let p = volume.spec_point(i);
                            crate::coords::lemma_cell_ranges(p);
                        }
                    }
                },
            }
            ci += 1;
        }
        proof {
            assert forall|i: int|
                0 <= i < data@.len() implies #[trigger] data@[i] == self.spec_get(
                volume.spec_point(i),
            ) by {
                let p = volume.spec_point(i);
                volume.lemma_index_point_roundtrip(i);
                lemma_chunk_progress_facts(volume, chunks, p);
            }
        }
        data
    }

    /// Returns a borrow of the stored chunk at the given chunk coordinates,
    /// if that chunk is allocated.
    fn find_chunk(&self, cpos: Point) -> (r: Option<&VoxelChunk<T>>)
        requires
            self.wf(),
        ensures
            match r {
                None => self.chunk_view(cpos.x as int, cpos.y as int, cpos.z as int) is None,
                Some(c) => self.chunk_view(cpos.x as int, cpos.y as int, cpos.z as int) == Some(
                    c.blocks@,
                ) && c.blocks@.len() == 4096,
            },
    {
        let rc = scale_down16(&cpos);
        let slot: usize = cube_index(&cpos);
        match self.find_region_index(rc) {
            None => None,
            Some(ri) => match &self.regions[ri].chunks[slot] {
                None => None,
                Some(c) => Some(c),
            },
        }
    }

    /// The common context of a write into an existing region: the scan found
    /// the stored region for the written block, and `blocks0` names the
    /// contents that the written chunk had before the write (default-filled
    /// when the chunk was unallocated).
    spec fn write_context(
        w0: VoxelWorld<T>,
        ri: int,
        rc: Point,
        p: Point,
        blocks0: Seq<T>,
        taken0: Option<VoxelChunk<T>>,
    ) -> bool {
        &&& w0.wf()
        &&& 0 <= ri < w0.regions@.len()
        &&& rc.x == p.x as int / 16 / 16
        &&& rc.y == p.y as int / 16 / 16
        &&& rc.z == p.z as int / 16 / 16
        &&& find_key(w0.regions@, rc.x as int, rc.y as int, rc.z as int) == Some(ri)
        &&& w0.regions@[ri].region_coords == rc
        &&& taken0 == w0.regions@[ri].chunks@[chunk_slot_of(p)]
        &&& match taken0 {
            Some(c) => blocks0 == c.blocks@,
            None => blocks0.len() == 4096 && forall|k: int|
                0 <= k < 4096 ==> blocks0[k] == T::spec_default(),
        }
    }

    /// After a write that replaces one chunk slot of one stored region — with
    /// the written chunk, or with nothing when the write emptied the chunk —
    /// the world is still well formed, reads the written value back at the
    /// written position, and reads every other position as before.
    proof fn lemma_after_slot_update(
        self,
        w0: VoxelWorld<T>,
        ri: int,
        rc: Point,
        p: Point,
        data: T,
        blocks0: Seq<T>,
        taken0: Option<VoxelChunk<T>>,
        newslot: Option<VoxelChunk<T>>,
    )
        requires
            Self::write_context(w0, ri, rc, p, blocks0, taken0),
            self.regions@.len() == w0.regions@.len(),
            forall|j: int|
                0 <= j < self.regions@.len() && j != ri ==> self.regions@[j] == w0.regions@[j],
            self.regions@[ri].region_coords == rc,
            self.regions@[ri].chunks@ == w0.regions@[ri].chunks@.update(chunk_slot_of(p), newslot),
            match newslot {
                Some(nc) => nc.blocks@ == blocks0.update(block_index_of(p), data) && (data
                    != T::spec_default() || exists|k: int|
                    0 <= k < 4096 && nc.blocks@[k] != T::spec_default()),
                None => data == T::spec_default() && (forall|k: int|
                    0 <= k < 4096 && k != block_index_of(p) ==> blocks0[k] == T::spec_default())
                    && (exists|k: int| 0 <= k < 4096 && self.regions@[ri].chunks@[k] is Some),
            },
        ensures
            self.wf(),
            self.spec_get(p) == data,
            forall|q: Point| q != p ==> self.spec_get(q) == w0.spec_get(q),
    {
        let sn = self.regions@;
        let so = w0.regions@;
        let cslot = chunk_slot_of(p);
        let bi = block_index_of(p);
        crate::coords::lemma_cell_ranges(p);
        assert(so[ri].wf());
        assert(blocks0.len() == 4096);
        // Well-formedness: only the one region changed, and it keeps 4096
        // slots, keeps owning a chunk, and owns only well-formed chunks.
        assert forall|i: int| 0 <= i < sn.len() implies (#[trigger] sn[i]).wf() by {
            if i != ri {
                assert(sn[i] == so[i]);
            } else {
                assert(sn[ri].chunks@.len() == 4096);
                match newslot {
                    Some(nc) => {
                        assert(sn[ri].chunks@[cslot] is Some);
                    },
                    None => {},
                }
                assert forall|k: int|
                    0 <= k < 4096 implies match #[trigger] sn[ri].chunks@[k] {
                    Some(ch) => ch.wf(),
                    None => true,
                } by {
                    if k != cslot {
                        assert(sn[ri].chunks@[k] == so[ri].chunks@[k]);
                    } else {
                        match newslot {
                            Some(nc) => {
                                assert(nc.blocks@.len() == 4096);
                                if data != T::spec_default() {
                                    assert(nc.blocks@[bi] != T::spec_default());
                                }
                            },
                            None => {},
                        }
                    }
                }
            }
        }
        assert forall|i: int, j: int|
            0 <= i < j < sn.len() implies (#[trigger] sn[i]).region_coords != (
        #[trigger] sn[j]).region_coords by {
            assert(sn[i].region_coords == so[i].region_coords);
            assert(sn[j].region_coords == so[j].region_coords);
        }
        // The scan is unchanged: the keys are unchanged.
        assert forall|j: int|
            0 <= j < so.len() implies (#[trigger] so[j]).key() == (#[trigger] sn[j]).key() by {}
        // Reading back the written position.
        lemma_find_key_eq_keys(so, sn, rc.x as int, rc.y as int, rc.z as int);
        match newslot {
            Some(nc) => {
                assert(self.spec_get(p) == nc.blocks@[bi]);
            },
            None => {},
        }
        // Every other position reads as before.
        assert forall|q: Point| q != p implies self.spec_get(q) == w0.spec_get(q) by {
            let qrx = q.x as int / 16 / 16;
            let qry = q.y as int / 16 / 16;
            let qrz = q.z as int / 16 / 16;
            lemma_find_key_eq_keys(so, sn, qrx, qry, qrz);
            lemma_find_key_props(so, qrx, qry, qrz);
            match find_key(so, qrx, qry, qrz) {
                None => {},
                Some(i2) => {
                    if i2 != ri {
                        assert(sn[i2] == so[i2]);
                    } else {
                        let qs = chunk_slot_of(q);
                        if qs != cslot {
                            assert(sn[ri].chunks@[qs] == so[ri].chunks@[qs]);
                        } else {
                            let qb = block_index_of(q);
                            if qb == bi {
                                assert(qrx == rc.x && qry == rc.y && qrz == rc.z);
                                lemma_same_cell_implies_eq(q, p);
                                assert(false);
                            }
                            match newslot {
                                Some(nc) => {
                                    assert(nc.blocks@[qb] == blocks0[qb]);
                                },
                                None => {
                                    assert(blocks0[qb] == T::spec_default());
                                },
                            }
                        }
                    }
                },
            }
        }
    }

    /// After a write that emptied the last chunk of its region and dropped
    /// the whole region from the list, the world is still well formed, reads
    /// the (default) written value back, and reads every other position as
    /// before.
    proof fn lemma_after_drop(
        self,
        w0: VoxelWorld<T>,
        ri: int,
        rc: Point,
        p: Point,
        data: T,
        blocks0: Seq<T>,
        taken0: Option<VoxelChunk<T>>,
    )
        requires
            Self::write_context(w0, ri, rc, p, blocks0, taken0),
            self.regions@ == w0.regions@.remove(ri),
            data == T::spec_default(),
            forall|k: int|
                0 <= k < 4096 && k != block_index_of(p) ==> blocks0[k] == T::spec_default(),
            forall|k: int|
                0 <= k < 4096 && k != chunk_slot_of(p) ==> w0.regions@[ri].chunks@[k] is None,
        ensures
            self.wf(),
            self.spec_get(p) == data,
            forall|q: Point| q != p ==> self.spec_get(q) == w0.spec_get(q),
    {
        let sn = self.regions@;
        let so = w0.regions@;
        let cslot = chunk_slot_of(p);
        let bi = block_index_of(p);
        crate::coords::lemma_cell_ranges(p);
        assert(so[ri].wf());
        assert(forall|j: int| 0 <= j < ri ==> sn[j] == so[j]);
        assert(forall|j: int| ri <= j < sn.len() ==> sn[j] == so[j + 1]);
        // Well-formedness: the remaining regions are unchanged regions of the
        // old world.
        assert forall|i: int| 0 <= i < sn.len() implies (#[trigger] sn[i]).wf() by {
            if i < ri {
                assert(sn[i] == so[i]);
            } else {
                assert(sn[i] == so[i + 1]);
            }
        }
        assert forall|i: int, j: int|
            0 <= i < j < sn.len() implies (#[trigger] sn[i]).region_coords != (
        #[trigger] sn[j]).region_coords by {
            let io = if i < ri {
                i
            } else {
                i + 1
            };
            let jo = if j < ri {
                j
            } else {
                j + 1
            };
            assert(sn[i] == so[io]);
            assert(sn[j] == so[jo]);
        }
        // Reading back the written position: its region is gone, so it reads
        // as the default, which is what was written.
        lemma_find_key_remove(so, ri, rc.x as int, rc.y as int, rc.z as int);
        // Every other position reads as before.
        assert forall|q: Point| q != p implies self.spec_get(q) == w0.spec_get(q) by {
            let qrx = q.x as int / 16 / 16;
            let qry = q.y as int / 16 / 16;
            let qrz = q.z as int / 16 / 16;
            lemma_find_key_remove(so, ri, qrx, qry, qrz);
            lemma_find_key_props(so, qrx, qry, qrz);
            match find_key(so, qrx, qry, qrz) {
                None => {},
                Some(i2) => {
                    if i2 == ri {
                        // The dropped region: every block of it already read
                        // as the default.
                        let qs = chunk_slot_of(q);
                        crate::coords::lemma_cell_ranges(q);
                        if qs != cslot {
                            assert(so[ri].chunks@[qs] is None);
                        } else {
                            let qb = block_index_of(q);
                            if qb == bi {
                                assert(qrx == rc.x && qry == rc.y && qrz == rc.z);
                                lemma_same_cell_implies_eq(q, p);
                                assert(false);
                            }
                            match taken0 {
                                Some(c) => {
                                    assert(c.blocks@[qb] == T::spec_default());
                                },
                                None => {},
                            }
                        }
                    } else if i2 < ri {
                        assert(sn[i2] == so[i2]);
                    } else {
                        assert(sn[i2 - 1] == so[i2]);
                    }
                },
            }
        }
    }

    /// Whether a region is currently allocated at the given region
    /// coordinates, exposed so that sparseness is observable from outside.
    pub fn has_region_at(&self, region_coords: Point) -> (b: bool)
        ensures
            b == self.has_region(region_coords),
    {
        self.find_region_index(region_coords).is_some()
    }

    /// Sparse minimality of chunks: a chunk of a well-formed world whose
    /// blocks all read as the default value is not allocated. In particular,
    /// setting every block of a chunk back to the default leaves the chunk
    /// pruned from storage.
    pub proof fn lemma_sparse_minimality(self, c: Point)
        requires
            self.wf(),
            -0x800_0000 <= c.x < 0x800_0000,
            -0x800_0000 <= c.y < 0x800_0000,
            -0x800_0000 <= c.z < 0x800_0000,
            forall|p: Point| #![trigger self.spec_get(p)]
                (p.x as int / 16 == c.x && p.y as int / 16 == c.y && p.z as int / 16 == c.z)
                    ==> self.spec_get(p) == T::spec_default(),
        ensures
            !self.has_chunk(c),
    {
        if self.has_chunk(c) {
            crate::coords::lemma_cell_ranges(c);
            lemma_find_key_props(self.regions@, c.x as int / 16, c.y as int / 16, c.z as int / 16);
            match find_key(self.regions@, c.x as int / 16, c.y as int / 16, c.z as int / 16) {
                None => {},
                Some(ri) => {
                    assert(self.regions@[ri].wf());
                    let slot = block_index_of(c);
                    match self.regions@[ri].chunks@[slot] {
                        None => {},
                        Some(ch) => {
                            assert(ch.wf());
                            let b0 = choose|b: int|
                                0 <= b < 4096 && ch.blocks@[b] != T::spec_default();
                            crate::coords::lemma_coord_recompose(b0);
                            let ox = (b0 / 16) / 16;
                            let oy = (b0 / 16) % 16;
                            let oz = b0 % 16;
                            crate::coords::lemma_cube_compose(c, ox, oy, oz);
                            let p0 = Point {
                                x: (16 * c.x + ox) as i32,
                                y: (16 * c.y + oy) as i32,
                                z: (16 * c.z + oz) as i32,
                            };
                            assert(block_index_of(p0) == b0);
                            assert(self.spec_get(p0) == ch.blocks@[b0]);
                            assert(self.spec_get(p0) == T::spec_default());
                        },
                    }
                },
            }
        }
    }

    /// Sparse minimality of regions: a region of a well-formed world none of
    /// whose chunks are allocated is not allocated either.
    pub proof fn lemma_region_minimality(self, rc: Point)
        requires
            self.wf(),
            -0x80_0000 <= rc.x < 0x80_0000,
            -0x80_0000 <= rc.y < 0x80_0000,
            -0x80_0000 <= rc.z < 0x80_0000,
            forall|c: Point| #![trigger self.has_chunk(c)]
                (c.x as int / 16 == rc.x && c.y as int / 16 == rc.y && c.z as int / 16 == rc.z)
                    ==> !self.has_chunk(c),
        ensures
            !self.has_region(rc),
    {
        if self.has_region(rc) {
            lemma_find_key_props(self.regions@, rc.x as int, rc.y as int, rc.z as int);
            match find_key(self.regions@, rc.x as int, rc.y as int, rc.z as int) {
                None => {},
                Some(ri) => {
                    assert(self.regions@[ri].wf());
                    let k0 = choose|k: int|
                        0 <= k < 4096 && self.regions@[ri].chunks@[k] is Some;
                    crate::coords::lemma_coord_recompose(k0);
                    let ox = (k0 / 16) / 16;
                    let oy = (k0 / 16) % 16;
                    let oz = k0 % 16;
                    crate::coords::lemma_cube_compose(rc, ox, oy, oz);
                    let c0 = Point {
                        x: (16 * rc.x + ox) as i32,
                        y: (16 * rc.y + oy) as i32,
                        z: (16 * rc.z + oz) as i32,
                    };
                    assert(block_index_of(c0) == k0);
                    assert(self.has_chunk(c0));
                },
            }
        }
    }

    /// Sets the block data at the given block position.
    ///
    /// Writing never fails: a missing chunk or region is allocated first,
    /// filled with default values. Conversely, a write that leaves the owning
    /// chunk entirely default prunes that chunk, and prunes the owning region
    /// once it owns no chunk, so storage stays minimal.
    pub fn set_block_data(&mut self, block_pos: Point, data: T)
        requires
            old(self).wf(),
        ensures
            final(self).wf(),
            final(self).spec_get(block_pos) == data,
            forall|q: Point|
                q != block_pos ==> final(self).spec_get(q) == old(self).spec_get(q),
    {
        let cc = scale_down16(&block_pos);
        let rc = scale_down16(&cc);
        let slot: usize = cube_index(&cc);
        let bi: usize = cube_index(&block_pos);
        let ghost px = block_pos.x as int;
        let ghost py = block_pos.y as int;
        let ghost pz = block_pos.z as int;
        let ghost s_old = self.regions@;
        assert(slot == chunk_slot_of(block_pos));
        assert(bi == block_index_of(block_pos));
        match self.find_region_index(rc) {
            None => {
                if data.is_default() {
                    // Nothing is stored for this block and the default is
                    // being written: the world already reads it back.
                    return ;
                }
                let mut chunk = VoxelChunk::filled();
                chunk.blocks.set(bi, data);
                let ghost chunkv = chunk;
                let mut region = VoxelRegion {
                    chunks: VoxelChunk::none_slots(),
                    region_coords: rc,
                };
                region.chunks.set(slot, Some(chunk));
                let ghost regv = region;
                self.regions.push(region);
                proof {
                    lemma_find_key_props(s_old, rc.x as int, rc.y as int, rc.z as int);
                    assert(self.regions@[s_old.len() as int] == regv);
                    assert forall|i: int, j: int|
                        0 <= i < j < self.regions@.len() implies (
                    #[trigger] self.regions@[i]).region_coords != (
                    #[trigger] self.regions@[j]).region_coords by {
                        if j == s_old.len() {
                            assert(!key_matches(s_old[i], rc.x as int, rc.y as int, rc.z as int));
                        } else {
                            assert(self.regions@[i] == s_old[i]);
                            assert(self.regions@[j] == s_old[j]);
                        }
                    }
                    assert forall|i: int|
                        0 <= i < self.regions@.len() implies (#[trigger] self.regions@[i]).wf() by {
                        if i < s_old.len() {
                            assert(self.regions@[i] == s_old[i]);
                        } else {
                            assert(regv.chunks@[slot as int] == Some(chunkv));
                            assert(chunkv.blocks@[bi as int] == data);
                            assert forall|k: int|
                                0 <= k < 4096 implies match #[trigger] regv.chunks@[k] {
                                Some(ch) => ch.wf(),
                                None => true,
                            } by {
                                if k != slot as int {
                                    assert(regv.chunks@[k] is None);
                                }
                            }
                        }
                    }
                    lemma_find_key_push(s_old, regv, px / 16 / 16, py / 16 / 16, pz / 16 / 16);
                    assert(self.spec_get(block_pos) == data);
                    assert forall|q: Point| q != block_pos implies self.spec_get(q) == old(
                        self,
                    ).spec_get(q) by {
                        let qx = q.x as int;
                        let qy = q.y as int;
                        let qz = q.z as int;
                        crate::coords::lemma_cell_ranges(q);
                        lemma_find_key_push(s_old, regv, qx / 16 / 16, qy / 16 / 16, qz / 16 / 16);
                        lemma_find_key_props(s_old, qx / 16 / 16, qy / 16 / 16, qz / 16 / 16);
                        match find_key(s_old, qx / 16 / 16, qy / 16 / 16, qz / 16 / 16) {
                            Some(i2) => {
                                assert(self.regions@[i2] == s_old[i2]);
                            },
                            None => {},
                        }
                        if qx / 16 / 16 == rc.x && qy / 16 / 16 == rc.y && qz / 16 / 16 == rc.z {
                            // The block lies in the freshly allocated region,
                            // which previously read as default everywhere.
                            if chunk_slot_of(q) == slot {
                                if block_index_of(q) == bi {
                                    lemma_same_cell_implies_eq(q, block_pos);
                                    assert(false);
                                }
                                assert(regv.chunks@[chunk_slot_of(q)] == Some(chunkv));
                                assert(chunkv.blocks@[block_index_of(q)] == T::spec_default());
                            } else {
                                assert(regv.chunks@[chunk_slot_of(q)] is None);
                            }
                        }
                    }
                }
            },
            Some(ri) => {
                proof {
                    lemma_find_key_props(s_old, rc.x as int, rc.y as int, rc.z as int);
                    assert(s_old[ri as int].region_coords == rc);
                }
                let mut region = self.regions.remove(ri);
                let ghost chunks0 = region.chunks@;
                let mut taken: Option<VoxelChunk<T>> = None;
                region.chunks.set_and_swap(slot, &mut taken);
                let ghost taken0 = taken;
                let mut chunk = match taken {
                    Some(c) => c,
                    None => VoxelChunk::filled(),
                };
                let ghost blocks0 = chunk.blocks@;
                proof {
                    assert(s_old[ri as int].wf());
                    match taken0 {
                        Some(c) => {
                            assert(match chunks0[slot as int] {
                                Some(ch) => ch.wf(),
                                None => true,
                            });
                        },
                        None => {},
                    }
                    assert(blocks0.len() == 4096);
                }
                chunk.blocks.set(bi, data);
                let ghost blocks1 = chunk.blocks@;
                let prune = data.is_default() && chunk.all_default();
                let ghost chunkv = chunk;
                proof {
                    if prune {
                        assert forall|k: int|
                            0 <= k < 4096 && k != bi as int implies blocks0[k]
                            == T::spec_default() by {
                            assert(blocks1[k] == blocks0[k]);
                        }
                    }
                }
                if !prune {
                    region.chunks.set(slot, Some(chunk));
                    let ghost regv = region;
                    self.regions.insert(ri, region);
                    proof {
                        assert(regv.chunks@ =~= chunks0.update(slot as int, Some(chunkv)));
                        assert(self.regions@ =~= s_old.update(ri as int, regv));
                        let ghost ns: Option<VoxelChunk<T>> = Some(chunkv);
                        assert(match ns {
                            Some(nc) => nc.blocks@ == blocks0.update(block_index_of(block_pos), data)
                                && (data != T::spec_default() || exists|k: int|
                                0 <= k < 4096 && nc.blocks@[k] != T::spec_default()),
                            None => false,
                        });
                        self.lemma_after_slot_update(
                            *old(self),
                            ri as int,
                            rc,
                            block_pos,
                            data,
                            blocks0,
                            taken0,
                            Some(chunkv),
                        );
                    }
                } else {
                    if region.is_empty() {
                        proof {
                            assert forall|k: int|
                                0 <= k < 4096 && k != slot as int implies chunks0[k] is None by {
                                assert(region.chunks@[k] == chunks0[k]);
                            }
                            self.lemma_after_drop(
                                *old(self),
                                ri as int,
                                rc,
                                block_pos,
                                data,
                                blocks0,
                                taken0,
                            );
                        }
                    } else {
                        let ghost regv = region;
                        self.regions.insert(ri, region);
                        proof {
                            assert(regv.chunks@ =~= chunks0.update(slot as int, None));
                            assert(self.regions@ =~= s_old.update(ri as int, regv));
                            self.lemma_after_slot_update(
                                *old(self),
                                ri as int,
                                rc,
                                block_pos,
                                data,
                                blocks0,
                                taken0,
                                None,
                            );
                        }
                    }
                }
            },
        }
    }
}

impl<T: BlockData> Default for VoxelWorld<T> {
    /// Creates an empty world, as [`VoxelWorld::new`] does.
    fn default() -> (w: VoxelWorld<T>)
        ensures
            w.wf(),
            forall|p: Point| w.spec_get(p) == T::spec_default(),
            forall|c: Point| !w.has_chunk(c),
            w.spec_region_count() == 0,
    {
        VoxelWorld::new()
    }
}

} // verus!
