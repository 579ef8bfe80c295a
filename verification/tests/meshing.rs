use voxel_world::block_data::{BlockOcclusion, BlockShape, TexCoord};
use voxel_world::coords::Point;
use voxel_world::mesher::generate_chunk_mesh;
use voxel_world::world::VoxelWorld;

fn occlusion_from_bits(bits: u8) -> BlockOcclusion {
    BlockOcclusion {
        inner: bits & 1 != 0,
        pos_x: bits & 2 != 0,
        neg_x: bits & 4 != 0,
        pos_y: bits & 8 != 0,
        neg_y: bits & 16 != 0,
        pos_z: bits & 32 != 0,
        neg_z: bits & 64 != 0,
    }
}

#[test]
fn opposite_face_symmetry() {
    // For every occlusion flag combination, taking the opposite face twice
    // gives the combination back.
    for bits in 0u8..128 {
        let f = occlusion_from_bits(bits);
        assert_eq!(f.opposite_face().opposite_face(), f);
    }
}

#[test]
fn opposite_face_swaps_axes() {
    let f = BlockOcclusion {
        inner: true,
        pos_x: true,
        neg_x: false,
        pos_y: false,
        neg_y: true,
        pos_z: true,
        neg_z: false,
    };
    let o = f.opposite_face();
    assert!(o.inner);
    assert!(!o.pos_x && o.neg_x);
    assert!(o.pos_y && !o.neg_y);
    assert!(!o.pos_z && o.neg_z);
}

#[test]
fn shape_occlusion_flags() {
    assert!(BlockShape::Empty.get_occlusion().inner);
    assert!(!BlockShape::Empty.get_occlusion().pos_x);
    assert_eq!(BlockShape::Custom.get_occlusion(), BlockOcclusion::empty());
    let cube = BlockShape::Cube.get_occlusion();
    assert!(!cube.inner);
    assert!(cube.pos_x && cube.neg_x && cube.pos_y && cube.neg_y && cube.pos_z && cube.neg_z);
}

#[test]
fn single_cube_emits_six_quads() {
    let mut shapes = VoxelWorld::<BlockShape>::new();
    shapes.set_block_data(Point::new(5, 5, 5), BlockShape::Cube);

    let mesh = generate_chunk_mesh(Point::new(0, 0, 0), &shapes).unwrap();
    assert_eq!(mesh.vertices.len(), 24);
    assert_eq!(mesh.normals.len(), 24);
    assert_eq!(mesh.uvs.len(), 24);
    assert_eq!(mesh.indices.len(), 36);

    // The first quad is the negative-X face of the cube at local (5, 5, 5).
    assert_eq!(mesh.vertices[0], Point::new(5, 5, 5));
    assert_eq!(mesh.vertices[1], Point::new(5, 5, 6));
    assert_eq!(mesh.vertices[2], Point::new(5, 6, 6));
    assert_eq!(mesh.vertices[3], Point::new(5, 6, 5));
    assert_eq!(mesh.normals[0], Point::new(-1, 0, 0));
    assert_eq!(mesh.uvs[0], TexCoord { u: 0, v: 0 });
    assert_eq!(mesh.uvs[1], TexCoord { u: 0, v: 1 });
    assert_eq!(mesh.uvs[2], TexCoord { u: 1, v: 1 });
    assert_eq!(mesh.uvs[3], TexCoord { u: 1, v: 0 });
    assert_eq!(&mesh.indices[0..6], &[0, 1, 2, 0, 2, 3]);
    // Indices of the second quad use the running vertex count.
    assert_eq!(&mesh.indices[6..12], &[4, 5, 6, 4, 6, 7]);
}

#[test]
fn fully_surrounded_cube_emits_nothing() {
    let mut shapes = VoxelWorld::<BlockShape>::new();
    let center = Point::new(5, 5, 5);
    shapes.set_block_data(center, BlockShape::Cube);
    for d in [
        Point::new(1, 0, 0),
        Point::new(-1, 0, 0),
        Point::new(0, 1, 0),
        Point::new(0, -1, 0),
        Point::new(0, 0, 1),
        Point::new(0, 0, -1),
    ] {
        shapes.set_block_data(
            Point::new(center.x + d.x, center.y + d.y, center.z + d.z),
            BlockShape::Cube,
        );
    }

    let mesh = generate_chunk_mesh(Point::new(0, 0, 0), &shapes).unwrap();
    // The center cube contributes no quad; each of the six neighbors shows
    // five faces (the one toward the center is culled).
    assert_eq!(mesh.vertices.len(), 6 * 5 * 4);
    assert_eq!(mesh.indices.len(), 6 * 5 * 6);
}

#[test]
fn empty_chunk_emits_nothing() {
    let shapes = VoxelWorld::<BlockShape>::new();
    let mesh = generate_chunk_mesh(Point::new(3, -2, 1), &shapes).unwrap();
    assert_eq!(mesh.vertices.len(), 0);
    assert_eq!(mesh.indices.len(), 0);
}

#[test]
fn custom_shapes_emit_nothing_and_occlude_nothing() {
    let mut shapes = VoxelWorld::<BlockShape>::new();
    shapes.set_block_data(Point::new(5, 5, 5), BlockShape::Cube);
    shapes.set_block_data(Point::new(6, 5, 5), BlockShape::Custom);

    let mesh = generate_chunk_mesh(Point::new(0, 0, 0), &shapes).unwrap();
    // The custom neighbor does not hide the cube's positive-X face and adds
    // no geometry of its own.
    assert_eq!(mesh.vertices.len(), 24);
}

#[test]
fn culling_sees_across_chunk_boundaries() {
    let mut shapes = VoxelWorld::<BlockShape>::new();
    // Two cubes touching across the boundary between chunk (0,0,0) and
    // chunk (1,0,0).
    shapes.set_block_data(Point::new(15, 5, 5), BlockShape::Cube);
    shapes.set_block_data(Point::new(16, 5, 5), BlockShape::Cube);

    let mesh = generate_chunk_mesh(Point::new(0, 0, 0), &shapes).unwrap();
    // The face toward the neighboring chunk's cube is culled via the halo.
    assert_eq!(mesh.vertices.len(), 20);

    let mesh2 = generate_chunk_mesh(Point::new(1, 0, 0), &shapes).unwrap();
    assert_eq!(mesh2.vertices.len(), 20);
    // The neighboring chunk's cube sits at local (0, 5, 5); its negative-X
    // face is the culled one, so the first emitted quad is its positive-X
    // face, whose first corner is (1, 0, 0) from the block.
    assert_eq!(mesh2.vertices[0], Point::new(1, 5, 5));
}

#[test]
fn mesh_of_negative_chunk_uses_local_positions() {
    let mut shapes = VoxelWorld::<BlockShape>::new();
    // Block (-1, -1, -1) is the last local block of chunk (-1, -1, -1).
    shapes.set_block_data(Point::new(-1, -1, -1), BlockShape::Cube);

    let mesh = generate_chunk_mesh(Point::new(-1, -1, -1), &shapes).unwrap();
    assert_eq!(mesh.vertices.len(), 24);
    // Its negative-X face sits at local position (15, 15, 15).
    assert_eq!(mesh.vertices[0], Point::new(15, 15, 15));
}
