use voxel_world::coords::{floor_div16, local16, Point};
use voxel_world::region::{OutOfRegion, Region};
use voxel_world::world::VoxelWorld;

#[test]
fn read_write_world() {
    let mut world = VoxelWorld::<u8>::default();
    let pos = Point::new(15, 128, -3);

    assert_eq!(world.get_block_data(pos), 0);

    world.set_block_data(pos, 7);
    assert_eq!(world.get_block_data(pos), 7);
}

#[test]
fn get_block_region() {
    let mut world = VoxelWorld::<u8>::default();
    world.set_block_data(Point::new(-1, 11, 4), 3);
    world.set_block_data(Point::new(-1, 11, 5), 3);

    let region = Region::from_points(Point::new(-3, 12, 2), Point::new(0, 10, 5));
    let data = world.get_block_region(region);

    assert_eq!(data.len(), 4 * 3 * 4);
    assert_eq!(data.iter().filter(|v| **v == 3).count(), 2);
}

#[test]
fn default_fill() {
    let world = VoxelWorld::<u8>::new();
    for p in [
        Point::new(0, 0, 0),
        Point::new(-1, -1, -1),
        Point::new(1000000, -2000000, 3000000),
        Point::new(i32::MIN, i32::MAX, 0),
    ] {
        assert_eq!(world.get_block_data(p), 0);
    }
    assert_eq!(world.region_count(), 0);
}

#[test]
fn round_trip() {
    let mut world = VoxelWorld::<u8>::new();
    let cases = [
        (Point::new(0, 0, 0), 1u8),
        (Point::new(-1, -17, 255), 200u8),
        (Point::new(123456, -654321, 42), 42u8),
        (Point::new(-16, 16, -256), 9u8),
    ];
    for (p, v) in cases {
        world.set_block_data(p, v);
    }
    for (p, v) in cases {
        assert_eq!(world.get_block_data(p), v);
    }
}

#[test]
fn batch_scalar_equivalence() {
    let mut world = VoxelWorld::<u8>::new();
    world.set_block_data(Point::new(-2, 3, 15), 11);
    world.set_block_data(Point::new(0, 0, 16), 12);
    world.set_block_data(Point::new(5, -1, 18), 13);

    let region = Region::from_points(Point::new(-4, -2, 14), Point::new(6, 4, 19));
    let data = world.get_block_region(region);
    assert_eq!(data.len(), region.count());
    for i in 0..data.len() {
        let p = region.index_to_point(i);
        assert_eq!(data[i], world.get_block_data(p));
    }
}

#[test]
fn region_batch_with_holes() {
    // A cuboid spanning an allocated chunk with one written block and
    // adjacent unallocated space: the written value shows up at its position
    // and everything else is default.
    let mut world = VoxelWorld::<u8>::new();
    let written = Point::new(2, 2, 2);
    world.set_block_data(written, 99);

    let region = Region::from_points(Point::new(-8, 0, 0), Point::new(8, 4, 4));
    let data = world.get_block_region(region);
    assert_eq!(data.len(), 17 * 5 * 5);
    for i in 0..data.len() {
        let p = region.index_to_point(i);
        if p == written {
            assert_eq!(data[i], 99);
        } else {
            assert_eq!(data[i], 0);
        }
    }
}

#[test]
fn sparse_minimality() {
    // Setting then resetting every written block of a chunk back to the
    // default prunes the chunk, and its region once nothing else is left.
    let mut world = VoxelWorld::<u8>::new();
    let chunk = Point::new(0, 0, -1);
    assert!(!world.has_chunk_at(chunk));

    world.set_block_data(Point::new(3, 4, -11), 1);
    world.set_block_data(Point::new(3, 5, -11), 2);
    assert!(world.has_chunk_at(chunk));
    assert_eq!(world.region_count(), 1);

    world.set_block_data(Point::new(3, 4, -11), 0);
    assert!(world.has_chunk_at(chunk));

    world.set_block_data(Point::new(3, 5, -11), 0);
    assert!(!world.has_chunk_at(chunk));
    assert!(!world.has_region_at(Point::new(0, 0, -1)));
    assert_eq!(world.region_count(), 0);
}

#[test]
fn writing_default_into_empty_space_allocates_nothing() {
    let mut world = VoxelWorld::<u8>::new();
    world.set_block_data(Point::new(7, -7, 7), 0);
    assert_eq!(world.region_count(), 0);
    assert_eq!(world.get_block_data(Point::new(7, -7, 7)), 0);
}

#[test]
fn region_indexing() {
    let region = Region::from_points(Point::new(4, 4, 4), Point::new(1, 2, 3));
    // Corners may come in any order; the region normalizes them.
    assert_eq!(region.count(), 4 * 3 * 2);
    // Row-major order: x outermost, z innermost.
    assert_eq!(region.index_to_point(0), Point::new(1, 2, 3));
    assert_eq!(region.index_to_point(1), Point::new(1, 2, 4));
    assert_eq!(region.index_to_point(2), Point::new(1, 3, 3));
    assert_eq!(region.index_to_point(6), Point::new(2, 2, 3));
    assert_eq!(region.point_to_index(Point::new(2, 2, 4)), Ok(7));
    assert_eq!(region.point_to_index(Point::new(0, 2, 3)), Err(OutOfRegion));
    assert_eq!(region.point_to_index(Point::new(1, 2, 6)), Err(OutOfRegion));
    for i in 0..region.count() {
        let p = region.index_to_point(i);
        assert!(region.contains(p));
        assert_eq!(region.point_to_index(p), Ok(i));
    }
}

#[test]
fn negative_coordinates_floor() {
    // Block -1 belongs to chunk -1, not chunk 0.
    assert_eq!(floor_div16(-1), -1);
    assert_eq!(local16(-1), 15);
    assert_eq!(floor_div16(-16), -1);
    assert_eq!(floor_div16(-17), -2);
    assert_eq!(floor_div16(31), 1);
    assert_eq!(local16(31), 15);
    assert_eq!(floor_div16(0), 0);
    assert_eq!(local16(-32), 0);
}
