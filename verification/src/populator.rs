//! Chunk streaming: scheduling which chunks to load around world anchors.
//!
//! Once per simulation tick, [`load_chunks`] walks the cuboid of chunk
//! coordinates within each anchor's load radius; every chunk still
//! [`ChunkState::Unloaded`] is switched to [`ChunkState::Loading`] and one
//! [`LoadChunkEvent`] is emitted for it. Because the state is checked and set
//! before the event is recorded, a chunk covered by several anchors is
//! requested at most once per tick ([`lemma_tick_model_once`]). The entire
//! pass is pinned down by [`tick_model`], so the emitted events and resulting
//! states are deterministic: chunks are visited with `x` outermost, then `y`,
//! then `z`.

use crate::coords::{scale_down16, Point};
use crate::region::Region;
use crate::states::{ChunkState, VoxelChunkStates};
use vstd::prelude::*;

verus! {

/// An anchor within a world that keeps a radius of chunks around itself
/// loaded. The anchor is consumed every streaming tick together with its
/// holder's current position; it never mutates storage directly.
#[derive(Clone, Copy, Debug, Default)]
pub struct ChunkAnchor {
    /// The identifier of the voxel world this anchor is pinned to, or `None`
    /// for an anchor that is not attached to any world.
    pub world: Option<u64>,
    /// The radius, in chunks, that is triggered to load around the anchor. A
    /// value of 0 only keeps the anchor's own chunk loaded.
    pub radius: u16,
    /// The maximum radius, in chunks, within which chunks are still
    /// considered in range before eviction is permitted. A value of 0 only
    /// considers the anchor's own chunk in range.
    pub max_radius: u16,
}

impl ChunkAnchor {
    /// Creates a new chunk anchor pinned to the given world.
    pub fn new(world: u64, radius: u16, max_radius: u16) -> (a: ChunkAnchor)
        ensures
            a.world == Some(world),
            a.radius == radius,
            a.max_radius == max_radius,
    {
        ChunkAnchor { world: Some(world), radius, max_radius }
    }
}

/// An event requesting that a chunk be loaded.
#[derive(Clone, Copy, Debug, PartialEq, Eq, Structural)]
pub struct LoadChunkEvent {
    /// The coordinates of the chunk to be loaded.
    pub chunk_coords: Point,
    /// The identifier of the voxel world to load the chunk in.
    pub world: u64,
}

/// An event requesting that a chunk be unloaded.
#[derive(Clone, Copy, Debug, PartialEq, Eq, Structural)]
pub struct UnloadChunkEvent {
    /// The coordinates of the chunk to be unloaded.
    pub chunk_coords: Point,
    /// The identifier of the voxel world to prune the chunk from.
    pub world: u64,
}

/// The inclusive cuboid of chunk coordinates within `radius` chunks, on every
/// axis, of the chunk containing a block position.
pub open spec fn anchor_cuboid(block_pos: Point, radius: u16) -> Region {
    Region {
        min: Point {
            x: (block_pos.x as int / 16 - radius) as i32,
            y: (block_pos.y as int / 16 - radius) as i32,
            z: (block_pos.z as int / 16 - radius) as i32,
        },
        max: Point {
            x: (block_pos.x as int / 16 + radius) as i32,
            y: (block_pos.y as int / 16 + radius) as i32,
            z: (block_pos.z as int / 16 + radius) as i32,
        },
    }
}

/// One anchor's pass over the first `n` chunks of its cuboid, in index order:
/// every chunk mapped to `Unloaded` is switched to `Loading` and appends one
/// load request for it.
pub open spec fn scan_model(
    m: Map<Point, ChunkState>,
    world: u64,
    reg: Region,
    n: int,
) -> (Map<Point, ChunkState>, Seq<LoadChunkEvent>)
    decreases n,
{
    if n <= 0 {
        (m, Seq::empty())
    } else {
        let (m1, evs) = scan_model(m, world, reg, n - 1);
        let c = reg.spec_point(n - 1);
        if m1[c] == ChunkState::Unloaded {
            (
                m1.insert(c, ChunkState::Loading),
                evs.push(LoadChunkEvent { chunk_coords: c, world }),
            )
        } else {
            (m1, evs)
        }
    }
}

/// One whole scheduler tick over the first `n` anchors, in order: each anchor
/// pinned to the given world scans its cuboid over the states left by the
/// anchors before it; anchors pinned elsewhere are skipped.
pub open spec fn tick_model(
    m: Map<Point, ChunkState>,
    world: u64,
    anchors: Seq<(ChunkAnchor, Point)>,
    n: int,
) -> (Map<Point, ChunkState>, Seq<LoadChunkEvent>)
    decreases n,
{
    if n <= 0 {
        (m, Seq::empty())
    } else {
        let (m1, evs) = tick_model(m, world, anchors, n - 1);
        let (a, pos) = anchors[n - 1];
        if a.world == Some(world) {
            let reg = anchor_cuboid(pos, a.radius);
            let (m2, evs2) = scan_model(m1, world, reg, reg.spec_count());
            (m2, evs + evs2)
        } else {
            (m1, evs)
        }
    }
}

/// The facts that make one anchor scan safe to compose: the domain stays
/// total, states only move from `Unloaded` to `Loading`, every emitted
/// request names a chunk that was `Unloaded` going in and is `Loading` going
/// out, every request names the scanned world, and no chunk is requested
/// twice.
proof fn lemma_scan_model_once(m: Map<Point, ChunkState>, world: u64, reg: Region, n: int)
    requires
        forall|c: Point| #[trigger] m.dom().contains(c),
    ensures
        ({
            let (m2, evs) = scan_model(m, world, reg, n);
            &&& forall|c: Point| #[trigger] m2.dom().contains(c)
            &&& forall|c: Point|
                #[trigger] m2[c] == m[c] || (m[c] == ChunkState::Unloaded && m2[c]
                    == ChunkState::Loading)
            &&& forall|k: int|
                0 <= k < evs.len() ==> m[(#[trigger] evs[k]).chunk_coords]
                    == ChunkState::Unloaded && m2[evs[k].chunk_coords] == ChunkState::Loading
                    && evs[k].world == world
            &&& forall|a: int, b: int|
                0 <= a < b < evs.len() ==> (#[trigger] evs[a]).chunk_coords != (
                #[trigger] evs[b]).chunk_coords
        }),
    decreases n,
{
    if n <= 0 {
    } else {
        lemma_scan_model_once(m, world, reg, n - 1);
        let (m1, evs1) = scan_model(m, world, reg, n - 1);
        let c = reg.spec_point(n - 1);
        if m1[c] == ChunkState::Unloaded {
            let m2 = m1.insert(c, ChunkState::Loading);
            let evs = evs1.push(LoadChunkEvent { chunk_coords: c, world });
            assert forall|k: int|
                0 <= k < evs.len() implies m[(#[trigger] evs[k]).chunk_coords]
                == ChunkState::Unloaded && m2[evs[k].chunk_coords] == ChunkState::Loading
                && evs[k].world == world by {
                if k < evs1.len() {
                    assert(evs[k] == evs1[k]);
                    assert(m1[evs1[k].chunk_coords] == ChunkState::Loading);
                    assert(evs1[k].chunk_coords != c);
                }
            }
            assert forall|a: int, b: int|
                0 <= a < b < evs.len() implies (#[trigger] evs[a]).chunk_coords != (
            #[trigger] evs[b]).chunk_coords by {
                if b < evs1.len() {
                    assert(evs[a] == evs1[a] && evs[b] == evs1[b]);
                } else {
                    assert(evs[a] == evs1[a]);
                    assert(m1[evs1[a].chunk_coords] == ChunkState::Loading);
                }
            }
        }
    }
}

/// At most one load request per chunk per tick: even when several anchors'
/// cuboids overlap, the events of one whole tick name pairwise distinct chunk
/// coordinates, every one of them names a chunk that was `Unloaded` when the
/// tick began and is `Loading` when it ends, and every one names the ticked
/// world.
pub proof fn lemma_tick_model_once(
    m: Map<Point, ChunkState>,
    world: u64,
    anchors: Seq<(ChunkAnchor, Point)>,
    n: int,
)
    requires
        forall|c: Point| #[trigger] m.dom().contains(c),
    ensures
        ({
            let (m2, evs) = tick_model(m, world, anchors, n);
            &&& forall|c: Point| #[trigger] m2.dom().contains(c)
            &&& forall|c: Point|
                #[trigger] m2[c] == m[c] || (m[c] == ChunkState::Unloaded && m2[c]
                    == ChunkState::Loading)
            &&& forall|k: int|
                0 <= k < evs.len() ==> m[(#[trigger] evs[k]).chunk_coords]
                    == ChunkState::Unloaded && m2[evs[k].chunk_coords] == ChunkState::Loading
                    && evs[k].world == world
            &&& forall|a: int, b: int|
                0 <= a < b < evs.len() ==> (#[trigger] evs[a]).chunk_coords != (
                #[trigger] evs[b]).chunk_coords
        }),
    decreases n,
{
    if n <= 0 {
    } else {
        lemma_tick_model_once(m, world, anchors, n - 1);
        let (m1, evs1) = tick_model(m, world, anchors, n - 1);
        let (a0, pos) = anchors[n - 1];
        if a0.world == Some(world) {
            let reg = anchor_cuboid(pos, a0.radius);
            lemma_scan_model_once(m1, world, reg, reg.spec_count());
            let (m2, evs2) = scan_model(m1, world, reg, reg.spec_count());
            let evs = evs1 + evs2;
            assert forall|k: int|
                0 <= k < evs.len() implies m[(#[trigger] evs[k]).chunk_coords]
                == ChunkState::Unloaded && m2[evs[k].chunk_coords] == ChunkState::Loading
                && evs[k].world == world by {
                if k < evs1.len() {
                    assert(evs[k] == evs1[k]);
                    assert(m1[evs1[k].chunk_coords] == ChunkState::Loading);
                } else {
                    assert(evs[k] == evs2[k - evs1.len()]);
                }
            }
            assert forall|a: int, b: int|
                0 <= a < b < evs.len() implies (#[trigger] evs[a]).chunk_coords != (
            #[trigger] evs[b]).chunk_coords by {
                if b < evs1.len() {
                    assert(evs[a] == evs1[a] && evs[b] == evs1[b]);
                } else if a >= evs1.len() {
                    assert(evs[a] == evs2[a - evs1.len()] && evs[b] == evs2[b - evs1.len()]);
                } else {
                    // An event of an earlier anchor and one of this anchor:
                    // the earlier one left its chunk `Loading`, while this
                    // anchor only requests chunks still `Unloaded`.
                    assert(evs[a] == evs1[a] && evs[b] == evs2[b - evs1.len()]);
                    assert(m1[evs1[a].chunk_coords] == ChunkState::Loading);
                    assert(m1[evs2[b - evs1.len()].chunk_coords] == ChunkState::Unloaded);
                }
            }
        }
    }
}

/// Loads chunks around all current world anchors.
///
/// Each anchor pinned to the ticked world is processed in order; its cuboid
/// of chunk coordinates within its load radius is walked in row-major order
/// (`x` outermost, `z` innermost), and every chunk found `Unloaded` is set to
/// `Loading` with exactly one load request emitted for it. The whole pass —
/// the emitted event sequence and the resulting tracker — equals
/// [`tick_model`] of the starting states.
pub fn load_chunks(
    states: &mut VoxelChunkStates,
    world_id: u64,
    anchors: &Vec<(ChunkAnchor, Point)>,
) -> (events: Vec<LoadChunkEvent>)
    requires
        old(states).wf(),
    ensures
        final(states).wf(),
        events@ == tick_model(
            old(states).state_map(),
            world_id,
            anchors@,
            anchors@.len() as int,
        ).1,
        forall|c: Point|
            #[trigger] final(states).spec_state(c) == tick_model(
                old(states).state_map(),
                world_id,
                anchors@,
                anchors@.len() as int,
            ).0[c],
{
    let ghost m0 = states.state_map();
    proof {
        assert forall|c: Point| #[trigger] m0.dom().contains(c) by {}
        assert forall|c: Point| #[trigger] m0[c] == states.spec_state(c) by {}
    }
    let mut events: Vec<LoadChunkEvent> = Vec::new();
    let mut j: usize = 0;
    while j < anchors.len()
        invariant
            states.wf(),
            j <= anchors@.len(),
            forall|c: Point| #[trigger] m0.dom().contains(c),
            events@ == tick_model(m0, world_id, anchors@, j as int).1,
            forall|c: Point|
                #[trigger] states.spec_state(c) == tick_model(m0, world_id, anchors@, j as int).0[c],
        decreases anchors@.len() - j,
    {
        let (anchor, pos) = anchors[j];
        let ghost mj = tick_model(m0, world_id, anchors@, j as int).0;
        let ghost evsj = tick_model(m0, world_id, anchors@, j as int).1;
        proof {
            lemma_tick_model_once(m0, world_id, anchors@, j as int);
        }
        let world_matches = match anchor.world {
            Some(w) => w == world_id,
            None => false,
        };
        if world_matches {
            let cpos = scale_down16(&pos);
            let r: i32 = anchor.radius as i32;
            let min = Point { x: cpos.x - r, y: cpos.y - r, z: cpos.z - r };
            let max = Point { x: cpos.x + r, y: cpos.y + r, z: cpos.z + r };
            let ghost reg = anchor_cuboid(pos, anchor.radius);
            proof {
                assert(reg.min == min && reg.max == max);
                assert(reg.wf());
            }
            let side: u64 = 2 * (anchor.radius as u64) + 1;
            assert((side as int) * (side as int) < 0x1_0000_0000_0000_0000 && (side as int) * (
            side as int) * (side as int) < 0x1_0000_0000_0000_0000) by (nonlinear_arith)
                requires
                    1 <= side <= 0x2_0000,
            ;
            let syz: u64 = side * side;
            let count: u64 = syz * side;
            proof {
                assert(count == reg.spec_count()) by (nonlinear_arith)
                    requires
                        reg.sx() == side && reg.sy() == side && reg.sz() == side,
                        syz == side * side,
                        count == syz * side,
                        reg.spec_count() == reg.sx() * reg.sy() * reg.sz(),
                ;
                assert(syz == reg.sy() * reg.sz());
            }
            let mut i: u64 = 0;
            while i < count
                invariant
                    states.wf(),
                    forall|c: Point| #[trigger] m0.dom().contains(c),
                    i <= count,
                    reg == anchor_cuboid(pos, anchor.radius),
                    reg.wf(),
                    reg.min == min,
                    count == reg.spec_count(),
                    side == reg.sz() && side == reg.sy() && side == reg.sx(),
                    syz == reg.sy() * reg.sz(),
                    syz == side * side,
                    -0x801_0000 <= min.x && -0x801_0000 <= min.y && -0x801_0000 <= min.z,
                    events@ == evsj + scan_model(mj, world_id, reg, i as int).1,
                    forall|c: Point|
                        #[trigger] states.spec_state(c) == scan_model(
                            mj,
                            world_id,
                            reg,
                            i as int,
                        ).0[c],
                    forall|c: Point| #[trigger] mj.dom().contains(c),
                decreases count - i,
            {
                let xi: u64 = i / syz;
                let yi: u64 = (i / side) % side;
                let zi: u64 = i % side;
                proof {
                    reg.lemma_index_point_roundtrip(i as int);
                    lemma_scan_model_once(mj, world_id, reg, i as int);
                    assert(xi < side && yi < side && zi < side) by (nonlinear_arith)
                        requires
                            xi == (i as int) / (syz as int),
                            yi == ((i as int) / (side as int)) % (side as int),
                            zi == (i as int) % (side as int),
                            (syz as int) == (side as int) * (side as int),
                            1 <= side,
                            0 <= i as int,
                            (i as int) < (count as int),
                            (count as int) == (syz as int) * (side as int),
                    ;
                }
                let c = Point {
                    x: min.x + (xi as i32),
                    y: min.y + (yi as i32),
                    z: min.z + (zi as i32),
                };
                proof {
                    assert(c == reg.spec_point(i as int));
                }
                let st = states.get_state(c);
                if st == ChunkState::Unloaded {
                    states.set_state(c, ChunkState::Loading);
                    events.push(LoadChunkEvent { chunk_coords: c, world: world_id });
                    proof {
                        let m1 = scan_model(mj, world_id, reg, i as int).0;
                        assert(m1[c] == ChunkState::Unloaded);
                        assert forall|q: Point|
                            #[trigger] states.spec_state(q) == scan_model(
                            mj,
                            world_id,
                            reg,
                            i as int + 1,
                        ).0[q] by {
                            if q == c {
                            } else {
                                assert(m1.insert(c, ChunkState::Loading)[q] == m1[q]);
                            }
                        }
                        assert(events@ =~= evsj + scan_model(mj, world_id, reg, i as int + 1).1);
                    }
                } else {
                    proof {
                        let m1 = scan_model(mj, world_id, reg, i as int).0;
                        assert(m1[c] != ChunkState::Unloaded);
                        assert(scan_model(mj, world_id, reg, i as int + 1).0 == m1);
                        assert(events@ =~= evsj + scan_model(mj, world_id, reg, i as int + 1).1);
                    }
                }
                i += 1;
            }
            proof {
                let next = tick_model(m0, world_id, anchors@, j as int + 1);
                assert(anchors@[j as int] == (anchor, pos));
                assert(next.0 == scan_model(mj, world_id, reg, reg.spec_count()).0);
                assert(next.1 == evsj + scan_model(mj, world_id, reg, reg.spec_count()).1);
            }
        } else {
            proof {
                assert(anchors@[j as int] == (anchor, pos));
                assert(tick_model(m0, world_id, anchors@, j as int + 1).0 == mj);
                assert(tick_model(m0, world_id, anchors@, j as int + 1).1 == evsj);
            }
        }
        j += 1;
    }
    events
}

/// Whether a chunk lies within the max-radius cuboid of at least one anchor
/// pinned to the given world.
pub open spec fn in_any_max_range(
    anchors: Seq<(ChunkAnchor, Point)>,
    world: u64,
    c: Point,
) -> bool {
    exists|j: int|
        0 <= j < anchors.len() && (#[trigger] anchors[j]).0.world == Some(world) && anchor_cuboid(
            anchors[j].1,
            anchors[j].0.max_radius,
        ).spec_contains(c)
}

/// Whether a chunk must be evicted this tick: it is currently `Loaded` and
/// falls outside every anchor's max radius. A chunk within any one anchor's
/// max radius stays loaded.
pub open spec fn should_unload(
    states: VoxelChunkStates,
    anchors: Seq<(ChunkAnchor, Point)>,
    world: u64,
    c: Point,
) -> bool {
    states.spec_state(c) == ChunkState::Loaded && !in_any_max_range(anchors, world, c)
}

/// Tests whether a chunk is within the max-radius cuboid of some anchor
/// pinned to the given world.
fn within_any_max_radius(
    anchors: &Vec<(ChunkAnchor, Point)>,
    world_id: u64,
    c: Point,
) -> (b: bool)
    ensures
        b == in_any_max_range(anchors@, world_id, c),
{
    let mut j: usize = 0;
    while j < anchors.len()
        invariant
            j <= anchors@.len(),
            forall|t: int|
                0 <= t < j ==> !((#[trigger] anchors@[t]).0.world == Some(world_id)
                    && anchor_cuboid(anchors@[t].1, anchors@[t].0.max_radius).spec_contains(c)),
        decreases anchors@.len() - j,
    {
        let (anchor, pos) = anchors[j];
        proof {
            assert(anchors@[j as int] == (anchor, pos));
        }
        let matches_world = match anchor.world {
            Some(w) => w == world_id,
            None => false,
        };
        if matches_world {
            let cpos = scale_down16(&pos);
            let r: i32 = anchor.max_radius as i32;
            if cpos.x - r <= c.x && c.x <= cpos.x + r && cpos.y - r <= c.y && c.y <= cpos.y + r
                && cpos.z - r <= c.z && c.z <= cpos.z + r {
                proof {
                    assert(anchor_cuboid(pos, anchor.max_radius).spec_contains(c));
                }
                return true;
            }
            proof {
                assert(!anchor_cuboid(pos, anchor.max_radius).spec_contains(c));
            }
        }
        j += 1;
    }
    false
}

/// Unloads unused chunks based on current world anchors.
///
/// Every chunk currently `Loaded` that lies outside the max-radius cuboid of
/// every anchor pinned to the ticked world is switched to `Unloading`, with
/// exactly one unload request emitted for it; every other chunk keeps its
/// state.
pub fn unload_chunks(
    states: &mut VoxelChunkStates,
    world_id: u64,
    anchors: &Vec<(ChunkAnchor, Point)>,
) -> (events: Vec<UnloadChunkEvent>)
    requires
        old(states).wf(),
    ensures
        final(states).wf(),
        forall|c: Point|
            #[trigger] final(states).spec_state(c) == (if should_unload(
                *old(states),
                anchors@,
                world_id,
                c,
            ) {
                ChunkState::Unloading
            } else {
                old(states).spec_state(c)
            }),
        forall|k: int|
            0 <= k < events@.len() ==> should_unload(
                *old(states),
                anchors@,
                world_id,
                (#[trigger] events@[k]).chunk_coords,
            ) && events@[k].world == world_id,
        forall|c: Point|
            #[trigger] should_unload(*old(states), anchors@, world_id, c) ==> exists|k: int|
                0 <= k < events@.len() && (#[trigger] events@[k]).chunk_coords == c,
        forall|a: int, b: int|
            0 <= a < b < events@.len() ==> (#[trigger] events@[a]).chunk_coords != (
            #[trigger] events@[b]).chunk_coords,
{
    let ghost s0 = *states;
    let loaded = states.chunks_in_state(ChunkState::Loaded);
    let mut events: Vec<UnloadChunkEvent> = Vec::new();
    let mut t: usize = 0;
    while t < loaded.len()
        invariant
            states.wf(),
            t <= loaded@.len(),
            forall|m: int|
                0 <= m < loaded@.len() ==> s0.spec_state(#[trigger] loaded@[m])
                    == ChunkState::Loaded,
            forall|c: Point|
                #[trigger] s0.spec_state(c) == ChunkState::Loaded ==> exists|m: int|
                    0 <= m < loaded@.len() && loaded@[m] == c,
            forall|m1: int, m2: int| 0 <= m1 < m2 < loaded@.len() ==> loaded@[m1] != loaded@[m2],
            forall|c: Point|
                #[trigger] states.spec_state(c) == (if exists|m: int|
                    0 <= m < t && (#[trigger] loaded@[m]) == c && !in_any_max_range(
                        anchors@,
                        world_id,
                        c,
                    ) {
                    ChunkState::Unloading
                } else {
                    s0.spec_state(c)
                }),
            forall|k: int|
                0 <= k < events@.len() ==> should_unload(
                    s0,
                    anchors@,
                    world_id,
                    (#[trigger] events@[k]).chunk_coords,
                ) && events@[k].world == world_id,
            forall|m: int|
                0 <= m < t && !in_any_max_range(anchors@, world_id, #[trigger] loaded@[m])
                    ==> exists|k: int|
                    0 <= k < events@.len() && (#[trigger] events@[k]).chunk_coords == loaded@[m],
            forall|k: int|
                0 <= k < events@.len() ==> exists|m: int|
                    0 <= m < t && (#[trigger] loaded@[m]) == (#[trigger] events@[k]).chunk_coords,
            forall|a: int, b: int|
                0 <= a < b < events@.len() ==> (#[trigger] events@[a]).chunk_coords != (
                #[trigger] events@[b]).chunk_coords,
        decreases loaded@.len() - t,
    {
        let ghost e0 = events@;
        let c = loaded[t];
        if !within_any_max_radius(anchors, world_id, c) {
            proof {
                assert(states.spec_state(c) == s0.spec_state(c));
            }
            states.set_state(c, ChunkState::Unloading);
            events.push(UnloadChunkEvent { chunk_coords: c, world: world_id });
            proof {
                assert forall|a: int, b: int|
                    0 <= a < b < events@.len() implies (#[trigger] events@[a]).chunk_coords != (
                #[trigger] events@[b]).chunk_coords by {
                    if b == e0.len() {
                        assert(events@[a] == e0[a]);
                    } else {
                        assert(events@[a] == e0[a] && events@[b] == e0[b]);
                    }
                }
                assert forall|q: Point|
                    #[trigger] states.spec_state(q) == (if exists|m: int|
                        0 <= m < t + 1 && (#[trigger] loaded@[m]) == q && !in_any_max_range(
                            anchors@,
                            world_id,
                            q,
                        ) {
                        ChunkState::Unloading
                    } else {
                        s0.spec_state(q)
                    }) by {
                    if q == c {
                        assert(loaded@[t as int] == q);
                    }
                }
                assert forall|m: int|
                    0 <= m < t + 1 && !in_any_max_range(
                    anchors@,
                    world_id,
                    #[trigger] loaded@[m],
                ) implies exists|k: int|
                    0 <= k < events@.len() && (#[trigger] events@[k]).chunk_coords
                        == loaded@[m] by {
                    if m == t as int {
                        assert(events@[e0.len() as int].chunk_coords == loaded@[m]);
                    } else {
                        let k0 = choose|k: int|
                            0 <= k < e0.len() && (#[trigger] e0[k]).chunk_coords == loaded@[m];
                        assert(events@[k0] == e0[k0]);
                    }
                }
            }
        } else {
            proof {
                assert forall|q: Point|
                    #[trigger] states.spec_state(q) == (if exists|m: int|
                        0 <= m < t + 1 && (#[trigger] loaded@[m]) == q && !in_any_max_range(
                            anchors@,
                            world_id,
                            q,
                        ) {
                        ChunkState::Unloading
                    } else {
                        s0.spec_state(q)
                    }) by {
                    if q == c {
                    }
                }
            }
        }
        t += 1;
    }
    proof {
        assert forall|c: Point|
            #[trigger] states.spec_state(c) == (if should_unload(s0, anchors@, world_id, c) {
            ChunkState::Unloading
        } else {
            s0.spec_state(c)
        }) by {
            if should_unload(s0, anchors@, world_id, c) {
                assert(s0.spec_state(c) == ChunkState::Loaded);
            } else {
                if exists|m: int|
                    0 <= m < loaded@.len() && (#[trigger] loaded@[m]) == c && !in_any_max_range(
                        anchors@,
                        world_id,
                        c,
                    ) {
                    let m0 = choose|m: int|
                        0 <= m < loaded@.len() && (#[trigger] loaded@[m]) == c
                            && !in_any_max_range(anchors@, world_id, c);
                    assert(s0.spec_state(c) == ChunkState::Loaded);
                }
            }
        }
        assert forall|c: Point|
            #[trigger] should_unload(*old(states), anchors@, world_id, c) implies exists|k: int|
            0 <= k < events@.len() && (#[trigger] events@[k]).chunk_coords == c by {
            let m0 = choose|m: int| 0 <= m < loaded@.len() && loaded@[m] == c;
            assert(loaded@[m0] == c);
        }
    }
    events
}

} // verus!
