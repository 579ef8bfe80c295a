use voxel_world::coords::Point;
use voxel_world::populator::{load_chunks, unload_chunks, ChunkAnchor, LoadChunkEvent};
use voxel_world::states::{ChunkState, VoxelChunkStates};

#[test]
fn load_nearby() {
    let mut states = VoxelChunkStates::default();
    let world_id: u64 = 1;
    // An anchor at world position (44.0, 2.1, -4.7): the holder's block
    // position truncates to (44, 2, -4), which lies in chunk (2, 0, -1).
    let anchor = ChunkAnchor::new(world_id, 1, 2);
    let anchors = vec![(anchor, Point::new(44, 2, -4))];

    let events = load_chunks(&mut states, world_id, &anchors);

    // Exactly one load request per chunk of the inclusive cuboid from
    // (1, -1, -2) to (3, 1, 0), in nested-axis order: x outer, z inner.
    let mut iter = events.iter();
    for x in 1..=3 {
        for y in -1..=1 {
            for z in -2..=0 {
                assert_eq!(
                    iter.next(),
                    Some(&LoadChunkEvent { chunk_coords: Point::new(x, y, z), world: world_id })
                );
            }
        }
    }
    assert_eq!(iter.next(), None);
    assert_eq!(events.len(), 27);
}

#[test]
fn loading_chunks_are_not_requested_again() {
    let mut states = VoxelChunkStates::default();
    let world_id: u64 = 9;
    let anchors = vec![(ChunkAnchor::new(world_id, 1, 1), Point::new(0, 0, 0))];

    let first = load_chunks(&mut states, world_id, &anchors);
    assert_eq!(first.len(), 27);
    assert_eq!(states.get_state(Point::new(0, 0, 0)), ChunkState::Loading);

    // What was set Loading this tick is not re-emitted next tick.
    let second = load_chunks(&mut states, world_id, &anchors);
    assert_eq!(second.len(), 0);
}

#[test]
fn overlapping_anchors_request_each_chunk_once() {
    let mut states = VoxelChunkStates::default();
    let world_id: u64 = 4;
    // Two anchors one chunk apart, with heavily overlapping radius cuboids.
    let anchors = vec![
        (ChunkAnchor::new(world_id, 1, 2), Point::new(0, 0, 0)),
        (ChunkAnchor::new(world_id, 1, 2), Point::new(16, 0, 0)),
    ];

    let events = load_chunks(&mut states, world_id, &anchors);

    // 27 chunks for the first anchor, and only the 9 new ones for the second.
    assert_eq!(events.len(), 36);
    for a in 0..events.len() {
        for b in (a + 1)..events.len() {
            assert_ne!(events[a].chunk_coords, events[b].chunk_coords);
        }
    }
}

#[test]
fn anchors_of_other_worlds_are_skipped() {
    let mut states = VoxelChunkStates::default();
    let anchors = vec![
        (ChunkAnchor::new(2, 0, 0), Point::new(0, 0, 0)),
        (ChunkAnchor { world: None, radius: 0, max_radius: 0 }, Point::new(32, 0, 0)),
    ];

    let events = load_chunks(&mut states, 3, &anchors);
    assert_eq!(events.len(), 0);
    assert_eq!(states.get_state(Point::new(0, 0, 0)), ChunkState::Unloaded);
}

#[test]
fn state_tracking_and_pruning() {
    let mut states = VoxelChunkStates::new();
    let c = Point::new(5, -3, 100);
    assert_eq!(states.get_state(c), ChunkState::Unloaded);
    assert_eq!(states.region_count(), 0);

    states.set_state(c, ChunkState::Loading);
    assert_eq!(states.get_state(c), ChunkState::Loading);
    assert_eq!(states.region_count(), 1);

    states.set_state(c, ChunkState::Loaded);
    assert_eq!(states.get_state(c), ChunkState::Loaded);

    let other = Point::new(5, -3, 101);
    states.set_state(other, ChunkState::Unloading);
    assert_eq!(states.get_state(c), ChunkState::Loaded);
    assert_eq!(states.get_state(other), ChunkState::Unloading);

    // An entry set back to Unloaded is never persisted: once both entries are
    // gone, the owning region is pruned.
    states.set_state(c, ChunkState::Unloaded);
    assert_eq!(states.get_state(c), ChunkState::Unloaded);
    assert_eq!(states.region_count(), 1);
    states.set_state(other, ChunkState::Unloaded);
    assert_eq!(states.region_count(), 0);
}

#[test]
fn zero_radius_loads_single_chunk() {
    let mut states = VoxelChunkStates::default();
    let world_id: u64 = 5;
    let anchors = vec![(ChunkAnchor::new(world_id, 0, 0), Point::new(-1, -1, -1))];

    let events = load_chunks(&mut states, world_id, &anchors);
    assert_eq!(events.len(), 1);
    assert_eq!(events[0].chunk_coords, Point::new(-1, -1, -1));
    assert_eq!(states.get_state(Point::new(-1, -1, -1)), ChunkState::Loading);
}

#[test]
fn unload_out_of_range_chunks() {
    let mut states = VoxelChunkStates::default();
    let world_id: u64 = 1;
    states.set_state(Point::new(0, 0, 0), ChunkState::Loaded);
    states.set_state(Point::new(5, 0, 0), ChunkState::Loaded);
    states.set_state(Point::new(0, 1, 0), ChunkState::Loaded);
    states.set_state(Point::new(9, 9, 9), ChunkState::Loading);

    // The anchor stands in chunk (0, 0, 0) with max radius 2.
    let anchors = vec![(ChunkAnchor::new(world_id, 1, 2), Point::new(8, 8, 8))];
    let events = unload_chunks(&mut states, world_id, &anchors);

    // Only the Loaded chunk outside the max-radius cuboid is evicted; the
    // Loading chunk outside it is not touched.
    assert_eq!(events.len(), 1);
    assert_eq!(events[0].chunk_coords, Point::new(5, 0, 0));
    assert_eq!(events[0].world, world_id);
    assert_eq!(states.get_state(Point::new(5, 0, 0)), ChunkState::Unloading);
    assert_eq!(states.get_state(Point::new(0, 0, 0)), ChunkState::Loaded);
    assert_eq!(states.get_state(Point::new(0, 1, 0)), ChunkState::Loaded);
    assert_eq!(states.get_state(Point::new(9, 9, 9)), ChunkState::Loading);
}

#[test]
fn chunk_in_any_anchors_max_radius_stays_loaded() {
    let world_id: u64 = 2;
    let near = (ChunkAnchor::new(world_id, 0, 2), Point::new(0, 0, 0));
    let far = (ChunkAnchor::new(world_id, 0, 1), Point::new(96, 0, 0));
    let c = Point::new(2, 0, 0);

    // In range of one anchor's max radius: the chunk stays loaded.
    let mut states = VoxelChunkStates::default();
    states.set_state(c, ChunkState::Loaded);
    let events = unload_chunks(&mut states, world_id, &vec![far, near]);
    assert_eq!(events.len(), 0);
    assert_eq!(states.get_state(c), ChunkState::Loaded);

    // With only the distant anchor left, the chunk is evicted.
    let events = unload_chunks(&mut states, world_id, &vec![far]);
    assert_eq!(events.len(), 1);
    assert_eq!(states.get_state(c), ChunkState::Unloading);
}
