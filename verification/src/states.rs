//! Chunk load-state tracking.
//!
//! A [`VoxelChunkStates`] records a streaming state per chunk coordinate,
//! structurally mirroring the payload storage's region grouping but holding a
//! single [`ChunkState`] per chunk. A chunk with no entry is `Unloaded`, and
//! an entry set back to `Unloaded` is removed at once (pruning the owning
//! region when it holds nothing else), so an `Unloaded` entry is never
//! persisted.

use crate::coords::{
    block_index_of, cube_index, cube_offset, lemma_same_chunk_cell_implies_eq, scale_down16, Point,
};
use crate::world::{
    find_key, key_matches, lemma_find_key_at, lemma_find_key_eq_keys, lemma_find_key_none,
    lemma_find_key_props, lemma_find_key_push, lemma_find_key_remove, lemma_find_key_unique_at,
    Keyed,
};
use vstd::pervasive::VecAdditionalExecFns;
use vstd::prelude::*;

verus! {

/// A chunk loading state indicator.
#[derive(Clone, Copy, Debug, PartialEq, Eq, Structural, Default)]
pub enum ChunkState {
    /// The chunk is not currently loaded. This is the initial state of every
    /// chunk, and the one state that is never stored explicitly.
    #[default]
    Unloaded,
    /// The chunk is being loaded or generated in a background task.
    Loading,
    /// The chunk is loaded and ready to use.
    Loaded,
    /// The chunk is being unloaded.
    Unloading,
}

/// A 16x16x16 grid of chunk states, stored under its region coordinates.
pub struct VoxelChunkStateRegion {
    /// The 4096 states of this region's chunks, indexed by the chunk offset
    /// within the region.
    chunks: Vec<ChunkState>,
    /// The region coordinates this region is stored under.
    region_coords: Point,
}

impl Keyed for VoxelChunkStateRegion {
    closed spec fn key(self) -> Point {
        self.region_coords
    }
}

impl VoxelChunkStateRegion {
    /// A stored state region always holds exactly 4096 entries, at least one
    /// of which is not `Unloaded`: an all-`Unloaded` region is never kept.
    pub closed spec fn wf(self) -> bool {
        &&& self.chunks@.len() == 4096
        &&& exists|k: int| 0 <= k < 4096 && self.chunks@[k] != ChunkState::Unloaded
    }

    /// Creates a column of 4096 `Unloaded` entries.
    fn unloaded_slots() -> (v: Vec<ChunkState>)
        ensures
            v@.len() == 4096,
            forall|k: int| 0 <= k < 4096 ==> v@[k] == ChunkState::Unloaded,
    {
        let mut chunks: Vec<ChunkState> = Vec::new();
        while chunks.len() < 4096
            invariant
                chunks@.len() <= 4096,
                forall|k: int| 0 <= k < chunks@.len() ==> chunks@[k] == ChunkState::Unloaded,
            decreases 4096 - chunks@.len(),
        {
            chunks.push(ChunkState::Unloaded);
        }
        chunks
    }

    /// Tests whether every entry of the region is `Unloaded`.
    fn all_unloaded(&self) -> (b: bool)
        requires
            self.chunks@.len() == 4096,
        ensures
            b == forall|k: int| 0 <= k < 4096 ==> self.chunks@[k] == ChunkState::Unloaded,
    {
        let mut i: usize = 0;
        while i < 4096
            invariant
                i <= 4096,
                self.chunks@.len() == 4096,
                forall|k: int| 0 <= k < i ==> self.chunks@[k] == ChunkState::Unloaded,
            decreases 4096 - i,
        {
            if self.chunks[i] != ChunkState::Unloaded {
                return false;
            }
            i += 1;
        }
        true
    }
}

/// Whether a point is in the range of region coordinates reachable by
/// floor-dividing a chunk coordinate by 16.
pub open spec fn key_in_region_range(p: Point) -> bool {
    &&& -0x800_0000 <= p.x < 0x800_0000
    &&& -0x800_0000 <= p.y < 0x800_0000
    &&& -0x800_0000 <= p.z < 0x800_0000
}

/// A handler recording the chunk load states of a single voxel world.
pub struct VoxelChunkStates {
    /// The allocated state regions, each stored under a distinct region
    /// coordinate.
    regions: Vec<VoxelChunkStateRegion>,
}

impl VoxelChunkStates {
    /// Internal consistency of the sparse index: region coordinates are
    /// unique, every stored region is well formed and holds at least one
    /// entry other than `Unloaded`, and every stored key is a genuine region
    /// coordinate (the floor-divided image of chunk coordinates), so the
    /// chunks of a stored region can be recomposed without overflow.
    pub closed spec fn wf(self) -> bool {
        &&& forall|i: int| 0 <= i < self.regions@.len() ==> (#[trigger] self.regions@[i]).wf()
        &&& forall|i: int, j: int|
            0 <= i < j < self.regions@.len() ==> (#[trigger] self.regions@[i]).region_coords != (
            #[trigger] self.regions@[j]).region_coords
        &&& forall|i: int|
            0 <= i < self.regions@.len() ==> key_in_region_range(
                (#[trigger] self.regions@[i]).region_coords,
            )
    }

    /// The state recorded for a chunk coordinate: the stored entry, or
    /// `Unloaded` when its region has no entry.
    pub closed spec fn spec_state(self, c: Point) -> ChunkState {
        match find_key(self.regions@, c.x as int / 16, c.y as int / 16, c.z as int / 16) {
            None => ChunkState::Unloaded,
            Some(ri) => self.regions@[ri].chunks@[block_index_of(c)],
        }
    }

    /// The tracker as a total map from chunk coordinates to their states.
    pub open spec fn state_map(self) -> Map<Point, ChunkState> {
        Map::new(|c: Point| true, |c: Point| self.spec_state(c))
    }

    /// Whether a state region is allocated at the given region coordinates.
    pub closed spec fn has_region(self, rc: Point) -> bool {
        find_key(self.regions@, rc.x as int, rc.y as int, rc.z as int) is Some
    }

    /// The number of allocated state regions.
    pub closed spec fn spec_region_count(self) -> int {
        self.regions@.len() as int
    }

    /// Creates an empty tracker: every chunk reads as `Unloaded`.
    pub fn new() -> (t: VoxelChunkStates)
        ensures
            t.wf(),
            forall|c: Point| t.spec_state(c) == ChunkState::Unloaded,
            t.spec_region_count() == 0,
    {
        let t = VoxelChunkStates { regions: Vec::new() };
        proof {
            assert forall|c: Point| t.spec_state(c) == ChunkState::Unloaded by {
                assert(find_key(
                    t.regions@,
                    c.x as int / 16,
                    c.y as int / 16,
                    c.z as int / 16,
                ) is None);
            }
        }
        t
    }

    /// The number of allocated state regions, exposed so that pruning is
    /// observable from outside.
    pub fn region_count(&self) -> (n: usize)
        ensures
            n == self.spec_region_count(),
    {
        self.regions.len()
    }

    /// Returns the index of the stored state region with the given region
    /// coordinates, mirroring [`find_key`] exactly.
    fn find_region_index(&self, rc: Point) -> (r: Option<usize>)
        ensures
            match r {
                None => find_key(self.regions@, rc.x as int, rc.y as int, rc.z as int) is None,
                Some(i) => i < self.regions@.len() && find_key(
                    self.regions@,
                    rc.x as int,
                    rc.y as int,
                    rc.z as int,
                ) == Some(i as int),
            },
    {
        let mut i: usize = 0;
        while i < self.regions.len()
            invariant
                i <= self.regions@.len(),
                forall|j: int|
                    0 <= j < i ==> !key_matches(
                        #[trigger] self.regions@[j],
                        rc.x as int,
                        rc.y as int,
                        rc.z as int,
                    ),
            decreases self.regions@.len() - i,
        {
            if self.regions[i].region_coords == rc {
                proof {
                    lemma_find_key_at(
                        self.regions@,
                        rc.x as int,
                        rc.y as int,
                        rc.z as int,
                        i as int,
                    );
                }
                return Some(i);
            }
            i += 1;
        }
        proof {
            lemma_find_key_none(self.regions@, rc.x as int, rc.y as int, rc.z as int);
        }
        None
    }

    /// Gets the state recorded for the chunk at the given chunk coordinates.
    ///
    /// A chunk with no entry is `Unloaded`; reading never fails.
    pub fn get_state(&self, chunk_coords: Point) -> (s: ChunkState)
        requires
            self.wf(),
        ensures
            s == self.spec_state(chunk_coords),
    {
        let rc = scale_down16(&chunk_coords);
        let slot: usize = cube_index(&chunk_coords);
        match self.find_region_index(rc) {
            None => ChunkState::Unloaded,
            Some(ri) => self.regions[ri].chunks[slot],
        }
    }

    /// Changes the state recorded for the chunk at the given chunk
    /// coordinates.
    ///
    /// Setting `Unloaded` removes the entry, and prunes the owning region
    /// once it records nothing but `Unloaded`; any other state lazily
    /// allocates the owning region. Every other chunk keeps its state.
    pub fn set_state(&mut self, chunk_coords: Point, state: ChunkState)
        requires
            old(self).wf(),
        ensures
            final(self).wf(),
            final(self).spec_state(chunk_coords) == state,
            forall|q: Point|
                q != chunk_coords ==> final(self).spec_state(q) == old(self).spec_state(q),
    {
        let rc = scale_down16(&chunk_coords);
        let slot: usize = cube_index(&chunk_coords);
        let ghost s_old = self.regions@;
        let ghost cx = chunk_coords.x as int;
        let ghost cy = chunk_coords.y as int;
        let ghost cz = chunk_coords.z as int;
        assert(slot == block_index_of(chunk_coords));
        match self.find_region_index(rc) {
            None => {
                if state == ChunkState::Unloaded {
                    // No entry exists and `Unloaded` is being recorded: the
                    // tracker already reads it back.
                    return ;
                }
                let mut region = VoxelChunkStateRegion {
                    chunks: VoxelChunkStateRegion::unloaded_slots(),
                    region_coords: rc,
                };
                region.chunks.set(slot, state);
                let ghost regv = region;
                self.regions.push(region);
                proof {
                    lemma_find_key_props(s_old, rc.x as int, rc.y as int, rc.z as int);
                    assert(self.regions@[s_old.len() as int] == regv);
                    assert forall|i: int, j: int|
                        0 <= i < j < self.regions@.len() implies (
                    #[trigger] self.regions@[i]).region_coords != (
                    #[trigger] self.regions@[j]).region_coords by {
                        if j == s_old.len() {
                            assert(!key_matches(s_old[i], rc.x as int, rc.y as int, rc.z as int));
                        } else {
                            assert(self.regions@[i] == s_old[i]);
                            assert(self.regions@[j] == s_old[j]);
                        }
                    }
                    assert forall|i: int|
                        0 <= i < self.regions@.len() implies (#[trigger] self.regions@[i]).wf() by {
                        if i < s_old.len() {
                            assert(self.regions@[i] == s_old[i]);
                        } else {
                            assert(regv.chunks@[slot as int] == state);
                        }
                    }
                    lemma_find_key_push(s_old, regv, cx / 16, cy / 16, cz / 16);
                    assert(self.spec_state(chunk_coords) == state);
                    assert forall|q: Point| q != chunk_coords implies self.spec_state(q) == old(
                        self,
                    ).spec_state(q) by {
                        let qx = q.x as int;
                        let qy = q.y as int;
                        let qz = q.z as int;
                        crate::coords::lemma_cell_ranges(q);
                        lemma_find_key_push(s_old, regv, qx / 16, qy / 16, qz / 16);
                        lemma_find_key_props(s_old, qx / 16, qy / 16, qz / 16);
                        match find_key(s_old, qx / 16, qy / 16, qz / 16) {
                            Some(i2) => {
                                assert(self.regions@[i2] == s_old[i2]);
                            },
                            None => {
                                if qx / 16 == rc.x && qy / 16 == rc.y && qz / 16 == rc.z {
                                    if block_index_of(q) == slot as int {
                                        lemma_same_chunk_cell_implies_eq(q, chunk_coords);
                                        assert(false);
                                    }
                                    assert(regv.chunks@[block_index_of(q)]
                                        == ChunkState::Unloaded);
                                }
                            },
                        }
                    }
                }
            },
            Some(ri) => {
                proof {
                    lemma_find_key_props(s_old, rc.x as int, rc.y as int, rc.z as int);
                    assert(s_old[ri as int].region_coords == rc);
                    assert(s_old[ri as int].wf());
                }
                let mut region = self.regions.remove(ri);
                let ghost chunks0 = region.chunks@;
                region.chunks.set(slot, state);
                let keep = if state == ChunkState::Unloaded {
                    !region.all_unloaded()
                } else {
                    true
                };
                if keep {
                    let ghost regv = region;
                    self.regions.insert(ri, region);
                    proof {
                        assert(self.regions@ =~= s_old.update(ri as int, regv));
                        assert forall|j: int|
                            0 <= j < s_old.len() implies (#[trigger] s_old[j]).key() == (
                        #[trigger] self.regions@[j]).key() by {}
                        assert forall|i: int, j: int|
                            0 <= i < j < self.regions@.len() implies (
                        #[trigger] self.regions@[i]).region_coords != (
                        #[trigger] self.regions@[j]).region_coords by {
                            assert(self.regions@[i].region_coords == s_old[i].region_coords);
                            assert(self.regions@[j].region_coords == s_old[j].region_coords);
                        }
                        assert forall|i: int|
                            0 <= i < self.regions@.len() implies (
                        #[trigger] self.regions@[i]).wf() by {
                            if i != ri as int {
                                assert(self.regions@[i] == s_old[i]);
                            } else {
                                if state != ChunkState::Unloaded {
                                    assert(regv.chunks@[slot as int] != ChunkState::Unloaded);
                                } else {
                                    // The region was kept because some entry
                                    // is still not `Unloaded`.
                                }
                            }
                        }
                        lemma_find_key_eq_keys(s_old, self.regions@, cx / 16, cy / 16, cz / 16);
                        assert(self.spec_state(chunk_coords) == state);
                        assert forall|q: Point| q != chunk_coords implies self.spec_state(q)
                            == old(self).spec_state(q) by {
                            let qx = q.x as int;
                            let qy = q.y as int;
                            let qz = q.z as int;
                            crate::coords::lemma_cell_ranges(q);
                            lemma_find_key_eq_keys(s_old, self.regions@, qx / 16, qy / 16, qz / 16);
                            lemma_find_key_props(s_old, qx / 16, qy / 16, qz / 16);
                            match find_key(s_old, qx / 16, qy / 16, qz / 16) {
                                None => {},
                                Some(i2) => {
                                    if i2 != ri as int {
                                        assert(self.regions@[i2] == s_old[i2]);
                                    } else {
                                        if block_index_of(q) == slot as int {
                                            assert(qx / 16 == rc.x && qy / 16 == rc.y && qz / 16
                                                == rc.z);
                                            lemma_same_chunk_cell_implies_eq(q, chunk_coords);
                                            assert(false);
                                        }
                                        assert(self.regions@[i2].chunks@[block_index_of(q)]
                                            == chunks0[block_index_of(q)]);
                                    }
                                },
                            }
                        }
                    }
                } else {
                    // Every entry of the region is now `Unloaded`: prune it.
                    proof {
                        assert forall|i: int, j: int|
                            0 <= i < j < s_old.len() implies (#[trigger] s_old[i]).key() != (
                        #[trigger] s_old[j]).key() by {}
                        assert forall|i: int|
                            0 <= i < self.regions@.len() implies (
                        #[trigger] self.regions@[i]).wf() by {
                            if i < ri as int {
                                assert(self.regions@[i] == s_old[i]);
                            } else {
                                assert(self.regions@[i] == s_old[i + 1]);
                            }
                        }
                        assert forall|i: int, j: int|
                            0 <= i < j < self.regions@.len() implies (
                        #[trigger] self.regions@[i]).region_coords != (
                        #[trigger] self.regions@[j]).region_coords by {
                            let io = if i < ri as int {
                                i
                            } else {
                                i + 1
                            };
                            let jo = if j < ri as int {
                                j
                            } else {
                                j + 1
                            };
                            assert(self.regions@[i] == s_old[io]);
                            assert(self.regions@[j] == s_old[jo]);
                        }
                        lemma_find_key_remove(s_old, ri as int, cx / 16, cy / 16, cz / 16);
                        assert(self.spec_state(chunk_coords) == state);
                        assert forall|q: Point| q != chunk_coords implies self.spec_state(q)
                            == old(self).spec_state(q) by {
                            let qx = q.x as int;
                            let qy = q.y as int;
                            let qz = q.z as int;
                            crate::coords::lemma_cell_ranges(q);
                            lemma_find_key_remove(s_old, ri as int, qx / 16, qy / 16, qz / 16);
                            lemma_find_key_props(s_old, qx / 16, qy / 16, qz / 16);
                            match find_key(s_old, qx / 16, qy / 16, qz / 16) {
                                None => {},
                                Some(i2) => {
                                    if i2 == ri as int {
                                        // A chunk of the pruned region: its
                                        // entry was already `Unloaded`.
                                        if block_index_of(q) == slot as int {
                                            assert(qx / 16 == rc.x && qy / 16 == rc.y && qz / 16
                                                == rc.z);
                                            lemma_same_chunk_cell_implies_eq(q, chunk_coords);
                                            assert(false);
                                        }
                                        assert(region.chunks@[block_index_of(q)]
                                            == chunks0[block_index_of(q)]);
                                        assert(region.chunks@[block_index_of(q)]
                                            == ChunkState::Unloaded);
                                    } else if i2 < ri as int {
                                        assert(self.regions@[i2] == s_old[i2]);
                                    } else {
                                        assert(self.regions@[i2 - 1] == s_old[i2]);
                                    }
                                },
                            }
                        }
                    }
                }
            },
        }
    }

    /// Whether a chunk's entry lies strictly before position `(i, k)` of the
    /// scan order over stored regions and their 4096 chunk slots.
    spec fn scanned_before(s: Seq<VoxelChunkStateRegion>, c: Point, i: int, k: int) -> bool {
        match find_key(s, c.x as int / 16, c.y as int / 16, c.z as int / 16) {
            None => false,
            Some(ri) => ri < i || (ri == i && block_index_of(c) < k),
        }
    }

    /// Collects the coordinates of every chunk currently recorded in the
    /// given state: each such chunk exactly once, and nothing else.
    ///
    /// The state looked for cannot be `Unloaded`, which stands for the
    /// unbounded remainder of the grid.
    pub fn chunks_in_state(&self, state: ChunkState) -> (r: Vec<Point>)
        requires
            self.wf(),
            state != ChunkState::Unloaded,
        ensures
            forall|m: int| 0 <= m < r@.len() ==> self.spec_state(#[trigger] r@[m]) == state,
            forall|c: Point|
                #[trigger] self.spec_state(c) == state ==> exists|m: int|
                    0 <= m < r@.len() && r@[m] == c,
            forall|m1: int, m2: int| 0 <= m1 < m2 < r@.len() ==> r@[m1] != r@[m2],
    {
        let ghost s = self.regions@;
        let mut r: Vec<Point> = Vec::new();
        proof {
            assert forall|c: Point|
                #[trigger] self.spec_state(c) == state && Self::scanned_before(
                s,
                c,
                0,
                0,
            ) implies exists|m: int| 0 <= m < r@.len() && r@[m] == c by {
                lemma_find_key_props(s, c.x as int / 16, c.y as int / 16, c.z as int / 16);
                crate::coords::lemma_cell_ranges(c);
            }
        }
        let mut i: usize = 0;
        while i < self.regions.len()
            invariant
                self.wf(),
                s == self.regions@,
                state != ChunkState::Unloaded,
                i <= s.len(),
                forall|m: int| 0 <= m < r@.len() ==> self.spec_state(#[trigger] r@[m]) == state,
                forall|m: int|
                    0 <= m < r@.len() ==> Self::scanned_before(s, #[trigger] r@[m], i as int, 0),
                forall|c: Point|
                    #[trigger] self.spec_state(c) == state && Self::scanned_before(
                        s,
                        c,
                        i as int,
                        0,
                    ) ==> exists|m: int| 0 <= m < r@.len() && r@[m] == c,
                forall|m1: int, m2: int| 0 <= m1 < m2 < r@.len() ==> r@[m1] != r@[m2],
            decreases s.len() - i,
        {
            let rc = self.regions[i].region_coords;
            proof {
                assert(self.regions@[i as int].wf());
                assert(key_in_region_range(rc));
                lemma_find_key_unique_at(s, rc.x as int, rc.y as int, rc.z as int, i as int);
            }
            let mut k: usize = 0;
            while k < 4096
                invariant
                    self.wf(),
                    s == self.regions@,
                    state != ChunkState::Unloaded,
                    i < s.len(),
                    k <= 4096,
                    rc == s[i as int].region_coords,
                    key_in_region_range(rc),
                    s[i as int].chunks@.len() == 4096,
                    find_key(s, rc.x as int, rc.y as int, rc.z as int) == Some(i as int),
                    forall|m: int| 0 <= m < r@.len() ==> self.spec_state(#[trigger] r@[m]) == state,
                    forall|m: int|
                        0 <= m < r@.len() ==> Self::scanned_before(
                            s,
                            #[trigger] r@[m],
                            i as int,
                            k as int,
                        ),
                    forall|c: Point|
                        #[trigger] self.spec_state(c) == state && Self::scanned_before(
                            s,
                            c,
                            i as int,
                            k as int,
                        ) ==> exists|m: int| 0 <= m < r@.len() && r@[m] == c,
                    forall|m1: int, m2: int| 0 <= m1 < m2 < r@.len() ==> r@[m1] != r@[m2],
                decreases 4096 - k,
            {
                let ghost r0 = r@;
                let st = self.regions[i].chunks[k];
                let local = cube_offset(k);
                let c = Point {
                    x: 16 * rc.x + local.x,
                    y: 16 * rc.y + local.y,
                    z: 16 * rc.z + local.z,
                };
                proof {
                    crate::coords::lemma_cube_compose(
                        rc,
                        local.x as int,
                        local.y as int,
                        local.z as int,
                    );
                    assert(block_index_of(c) == k);
                    assert(self.spec_state(c) == s[i as int].chunks@[k as int]);
                }
                if st == state {
                    proof {
                        assert forall|m: int| 0 <= m < r@.len() implies r@[m] != c by {
                            if r@[m] == c {
                                assert(Self::scanned_before(s, c, i as int, k as int));
                            }
                        }
                    }
                    r.push(c);
                }
                proof {
                    assert forall|q: Point|
                        #[trigger] self.spec_state(q) == state && Self::scanned_before(
                        s,
                        q,
                        i as int,
                        k as int + 1,
                    ) implies exists|m: int| 0 <= m < r@.len() && r@[m] == q by {
                        if Self::scanned_before(s, q, i as int, k as int) {
                            // Already collected on an earlier step.
                            let m0 = choose|m: int| 0 <= m < r0.len() && r0[m] == q;
                            assert(r@[m0] == q);
                        } else {
                            // The scan is exactly at this chunk's entry, so
                            // the chunk was just pushed (its entry holds the
                            // state looked for).
                            crate::coords::lemma_cell_ranges(q);
                            match find_key(s, q.x as int / 16, q.y as int / 16, q.z as int / 16) {
                                None => {},
                                Some(ri) => {
                                    lemma_find_key_props(
                                        s,
                                        q.x as int / 16,
                                        q.y as int / 16,
                                        q.z as int / 16,
                                    );
                                    assert(ri == i as int && block_index_of(q) == k as int);
                                    assert(q.x as int / 16 == rc.x && q.y as int / 16 == rc.y
                                        && q.z as int / 16 == rc.z);
                                    lemma_same_chunk_cell_implies_eq(q, c);
                                    if st == state {
                                        assert(r@[r@.len() - 1] == q);
                                    } else {
                                        assert(self.spec_state(q) != state);
                                    }
                                },
                            }
                        }
                    }
                }
                k += 1;
            }
            proof {
                assert forall|m: int|
                    0 <= m < r@.len() implies Self::scanned_before(
                    s,
                    #[trigger] r@[m],
                    i as int + 1,
                    0,
                ) by {
                    crate::coords::lemma_cell_ranges(r@[m]);
                }
                assert forall|c: Point|
                    #[trigger] self.spec_state(c) == state && Self::scanned_before(
                    s,
                    c,
                    i as int + 1,
                    0,
                ) implies exists|m: int| 0 <= m < r@.len() && r@[m] == c by {
                    crate::coords::lemma_cell_ranges(c);
                    assert(Self::scanned_before(s, c, i as int, 4096));
                }
            }
            i += 1;
        }
        proof {
            assert forall|c: Point| #[trigger] self.spec_state(c) == state implies exists|m: int|
                0 <= m < r@.len() && r@[m] == c by {
                lemma_find_key_props(s, c.x as int / 16, c.y as int / 16, c.z as int / 16);
                match find_key(s, c.x as int / 16, c.y as int / 16, c.z as int / 16) {
                    None => {},
                    Some(ri) => {
                        assert(Self::scanned_before(s, c, i as int, 0));
                    },
                }
            }
        }
        r
    }

    /// Sparse minimality of the tracker: a region all of whose chunks read as
    /// `Unloaded` is not allocated, so an `Unloaded` entry is never kept.
    pub proof fn lemma_unloaded_region_minimality(self, rc: Point)
        requires
            self.wf(),
            -0x80_0000 <= rc.x < 0x80_0000,
            -0x80_0000 <= rc.y < 0x80_0000,
            -0x80_0000 <= rc.z < 0x80_0000,
            forall|c: Point| #![trigger self.spec_state(c)]
                (c.x as int / 16 == rc.x && c.y as int / 16 == rc.y && c.z as int / 16 == rc.z)
                    ==> self.spec_state(c) == ChunkState::Unloaded,
        ensures
            !self.has_region(rc),
    {
        if self.has_region(rc) {
            lemma_find_key_props(self.regions@, rc.x as int, rc.y as int, rc.z as int);
            match find_key(self.regions@, rc.x as int, rc.y as int, rc.z as int) {
                None => {},
                Some(ri) => {
                    assert(self.regions@[ri].wf());
                    let k0 = choose|k: int|
                        0 <= k < 4096 && self.regions@[ri].chunks@[k] != ChunkState::Unloaded;
                    crate::coords::lemma_coord_recompose(k0);
                    let ox = (k0 / 16) / 16;
                    let oy = (k0 / 16) % 16;
                    let oz = k0 % 16;
                    crate::coords::lemma_cube_compose(rc, ox, oy, oz);
                    let c0 = Point {
                        x: (16 * rc.x + ox) as i32,
                        y: (16 * rc.y + oy) as i32,
                        z: (16 * rc.z + oz) as i32,
                    };
                    assert(block_index_of(c0) == k0);
                    assert(self.spec_state(c0) == self.regions@[ri].chunks@[k0]);
                },
            }
        }
    }
}

impl Default for VoxelChunkStates {
    /// Creates an empty tracker, as [`VoxelChunkStates::new`] does.
    fn default() -> (t: VoxelChunkStates)
        ensures
            t.wf(),
            forall|c: Point| t.spec_state(c) == ChunkState::Unloaded,
            t.spec_region_count() == 0,
    {
        VoxelChunkStates::new()
    }
}

} // verus!
