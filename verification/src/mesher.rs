//! Chunk mesh generation.
//!
//! [`generate_chunk_mesh`] turns one chunk's worth of block shapes — read
//! from a padded 18x18x18 cuboid extending one block beyond the chunk in
//! every direction, so that face culling can see the neighboring chunks —
//! into a single triangle-list mesh. Per block of the unpadded 16x16x16
//! volume: a fully self-occluding shape is skipped; otherwise each of the six
//! neighbors occludes the facing side exactly when the neighbor's occlusion
//! flags cover the opposite direction, and the shape emits one quad per face
//! left unoccluded, at the block's chunk-local position.
//!
//! Because the triangle indices are 16-bit, a mesh is only representable
//! while its vertex count fits; the generator counts the quads first and
//! returns `None` in the (practically unreachable) case that the bound would
//! overflow, instead of emitting corrupt indices.

use crate::block_data::{
    quads_indices_from, quads_normals, quads_uvs, quads_vertices, BlockOcclusion, BlockShape,
    Face, TexCoord,
};
use crate::coords::{cube_offset, Point};
use crate::region::Region;
use crate::world::VoxelWorld;
use vstd::prelude::*;

verus! {

/// A temporary triangle mesh for one chunk: four parallel buffers of vertex
/// positions, normals, and texture coordinates, plus a 16-bit triangle index
/// list. All geometry lies on the integer lattice of block corners.
pub struct ChunkMesher {
    /// The triangle indices, six per quad, counter-clockwise.
    pub indices: Vec<u16>,
    /// The vertex positions, in chunk-local block-corner coordinates.
    pub vertices: Vec<Point>,
    /// The outward unit normal of each vertex's face.
    pub normals: Vec<Point>,
    /// The texture coordinates, the unit square corners per quad.
    pub uvs: Vec<TexCoord>,
}

impl ChunkMesher {
    /// Creates an empty mesh.
    pub fn new() -> (m: ChunkMesher)
        ensures
            m.indices@.len() == 0,
            m.vertices@.len() == 0,
            m.normals@.len() == 0,
            m.uvs@.len() == 0,
    {
        ChunkMesher { indices: Vec::new(), vertices: Vec::new(), normals: Vec::new(), uvs: Vec::new() }
    }
}

impl Default for ChunkMesher {
    /// Creates an empty mesh, as [`ChunkMesher::new`] does.
    fn default() -> (m: ChunkMesher)
        ensures
            m.indices@.len() == 0,
            m.vertices@.len() == 0,
            m.normals@.len() == 0,
            m.uvs@.len() == 0,
    {
        ChunkMesher::new()
    }
}

/// The linear index of a local position in the padded 18x18x18 shape cuboid,
/// whose minimum corner is local position `(-1, -1, -1)`.
pub open spec fn pad_index_of(x: int, y: int, z: int) -> int {
    (x + 1) * 324 + (y + 1) * 18 + (z + 1)
}

/// The shape at a chunk-local position (each coordinate in `[-1, 17)`) of the
/// padded shape data.
pub open spec fn shape_at(data: Seq<BlockShape>, x: int, y: int, z: int) -> BlockShape {
    data[pad_index_of(x, y, z)]
}

/// The occlusion a block at a local position receives from its six neighbors:
/// each face is occluded exactly when the neighbor on that side occludes the
/// opposite direction.
pub open spec fn neighbor_occlusion(data: Seq<BlockShape>, x: int, y: int, z: int) -> BlockOcclusion {
    BlockOcclusion {
        inner: false,
        neg_x: shape_at(data, x - 1, y, z).spec_occlusion().pos_x,
        pos_x: shape_at(data, x + 1, y, z).spec_occlusion().neg_x,
        neg_y: shape_at(data, x, y - 1, z).spec_occlusion().pos_y,
        pos_y: shape_at(data, x, y + 1, z).spec_occlusion().neg_y,
        neg_z: shape_at(data, x, y, z - 1).spec_occlusion().pos_z,
        pos_z: shape_at(data, x, y, z + 1).spec_occlusion().neg_z,
    }
}

/// The quads emitted for the block at linear index `b` of the unpadded chunk
/// volume: nothing for a fully self-occluding shape, and otherwise the
/// shape's quads under the occlusion computed from its neighbors, at the
/// block's local position.
pub open spec fn block_quads(data: Seq<BlockShape>, b: int) -> Seq<(Point, Face)> {
    let x = (b / 16) / 16;
    let y = (b / 16) % 16;
    let z = b % 16;
    let shape = shape_at(data, x, y, z);
    if shape.spec_occlusion().inner {
        Seq::empty()
    } else {
        shape.spec_quads(
            neighbor_occlusion(data, x, y, z),
            Point { x: x as i32, y: y as i32, z: z as i32 },
        )
    }
}

/// The quads of the first `n` blocks of the chunk, in block index order
/// (`x` outermost, `z` innermost).
pub open spec fn chunk_quads(data: Seq<BlockShape>, n: int) -> Seq<(Point, Face)>
    decreases n,
{
    if n <= 0 {
        Seq::empty()
    } else {
        chunk_quads(data, n - 1) + block_quads(data, n - 1)
    }
}

/// Each quad contributes four vertices, normals, and texture coordinates,
/// and six indices.
pub proof fn lemma_quads_lens(base: int, qs: Seq<(Point, Face)>)
    ensures
        quads_vertices(qs).len() == 4 * qs.len(),
        quads_normals(qs).len() == 4 * qs.len(),
        quads_uvs(qs).len() == 4 * qs.len(),
        quads_indices_from(base, qs).len() == 6 * qs.len(),
    decreases qs.len(),
{
    if qs.len() == 0 {
    } else {
        lemma_quads_lens(base, qs.drop_last());
    }
}

/// The buffer models distribute over quad list concatenation, with the index
/// base advanced by four entries per leading quad.
proof fn lemma_quads_append(a: Seq<(Point, Face)>, b: Seq<(Point, Face)>, base: int)
    ensures
        quads_vertices(a + b) == quads_vertices(a) + quads_vertices(b),
        quads_normals(a + b) == quads_normals(a) + quads_normals(b),
        quads_uvs(a + b) == quads_uvs(a) + quads_uvs(b),
        quads_indices_from(base, a + b) == quads_indices_from(base, a) + quads_indices_from(
            base + 4 * a.len(),
            b,
        ),
    decreases b.len(),
{
    if b.len() == 0 {
        assert(a + b =~= a);
        assert(quads_vertices(b) =~= Seq::<Point>::empty());
        assert(quads_normals(b) =~= Seq::<Point>::empty());
        assert(quads_uvs(b) =~= Seq::<TexCoord>::empty());
        assert(quads_indices_from(base + 4 * a.len(), b) =~= Seq::<u16>::empty());
        assert(quads_vertices(a) + quads_vertices(b) =~= quads_vertices(a));
        assert(quads_normals(a) + quads_normals(b) =~= quads_normals(a));
        assert(quads_uvs(a) + quads_uvs(b) =~= quads_uvs(a));
        assert(quads_indices_from(base, a) + quads_indices_from(base + 4 * a.len(), b)
            =~= quads_indices_from(base, a));
    } else {
        lemma_quads_append(a, b.drop_last(), base);
        assert((a + b).drop_last() =~= a + b.drop_last());
        assert((a + b).last() == b.last());
        assert(quads_vertices(a + b) =~= quads_vertices(a) + quads_vertices(b));
        assert(quads_normals(a + b) =~= quads_normals(a) + quads_normals(b));
        assert(quads_uvs(a + b) =~= quads_uvs(a) + quads_uvs(b));
        assert(base + 4 * ((a + b).len() - 1) == (base + 4 * a.len()) + 4 * (b.len() - 1));
        assert(quads_indices_from(base, a + b) =~= quads_indices_from(base, a)
            + quads_indices_from(base + 4 * a.len(), b));
    }
}

/// The quad count of a chunk prefix grows with the prefix.
proof fn lemma_chunk_quads_mono(data: Seq<BlockShape>, n1: int, n2: int)
    requires
        0 <= n1 <= n2,
    ensures
        chunk_quads(data, n1).len() <= chunk_quads(data, n2).len(),
    decreases n2 - n1,
{
    if n1 < n2 {
        lemma_chunk_quads_mono(data, n1, n2 - 1);
    }
}

/// Computes the linear index of a local position in the padded shape cuboid.
fn pad_index(x: i32, y: i32, z: i32) -> (i: usize)
    requires
        -1 <= x <= 16,
        -1 <= y <= 16,
        -1 <= z <= 16,
    ensures
        i == pad_index_of(x as int, y as int, z as int),
        i < 5832,
{
    ((x + 1) as usize) * 324 + ((y + 1) as usize) * 18 + ((z + 1) as usize)
}

/// Computes the occlusion a block receives from its six neighbors in the
/// padded shape data.
fn occlusion_from_neighbors(data: &Vec<BlockShape>, x: i32, y: i32, z: i32) -> (o: BlockOcclusion)
    requires
        data@.len() == 5832,
        0 <= x < 16,
        0 <= y < 16,
        0 <= z < 16,
    ensures
        o == neighbor_occlusion(data@, x as int, y as int, z as int),
{
    let inx = pad_index(x - 1, y, z);
    let ipx = pad_index(x + 1, y, z);
    let iny = pad_index(x, y - 1, z);
    let ipy = pad_index(x, y + 1, z);
    let inz = pad_index(x, y, z - 1);
    let ipz = pad_index(x, y, z + 1);
    BlockOcclusion {
        inner: false,
        neg_x: data[inx].get_occlusion().pos_x,
        pos_x: data[ipx].get_occlusion().neg_x,
        neg_y: data[iny].get_occlusion().pos_y,
        pos_y: data[ipy].get_occlusion().neg_y,
        neg_z: data[inz].get_occlusion().pos_z,
        pos_z: data[ipz].get_occlusion().neg_z,
    }
}

/// Builds the triangle mesh for one chunk out of its padded 18x18x18 shape
/// data (the chunk's own 16x16x16 volume plus a one-block halo on every
/// side).
///
/// Returns the mesh described by [`chunk_quads`], or `None` exactly when the
/// quads would need more vertices than 16-bit triangle indices can address;
/// the count is checked before anything is emitted, so a mesh is never
/// silently truncated.
pub fn mesh_chunk(shape_data: &Vec<BlockShape>) -> (r: Option<ChunkMesher>)
    requires
        shape_data@.len() == 5832,
    ensures
        r is Some <==> 4 * chunk_quads(shape_data@, 4096).len() <= 65536,
        (match r {
            Some(m) => {
                let qs = chunk_quads(shape_data@, 4096);
                &&& m.vertices@ == quads_vertices(qs)
                &&& m.normals@ == quads_normals(qs)
                &&& m.uvs@ == quads_uvs(qs)
                &&& m.indices@ == quads_indices_from(0, qs)
            },
            None => true,
        }),
{
    // First pass: count the quads, so the 16-bit index bound is known before
    // anything is emitted.
    let mut count: usize = 0;
    let mut b: usize = 0;
    while b < 4096
        invariant
            shape_data@.len() == 5832,
            b <= 4096,
            count == chunk_quads(shape_data@, b as int).len(),
            count <= 6 * b,
        decreases 4096 - b,
    {
        let local = cube_offset(b);
        let si = pad_index(local.x, local.y, local.z);
        let shape = shape_data[si];
        let k: usize = if shape.get_occlusion().inner {
            0
        } else {
            let occ = occlusion_from_neighbors(shape_data, local.x, local.y, local.z);
            match shape {
                BlockShape::Cube => {
                    let mut q: usize = 0;
                    if !occ.neg_x {
                        q += 1;
                    }
                    if !occ.pos_x {
                        q += 1;
                    }
                    if !occ.neg_y {
                        q += 1;
                    }
                    if !occ.pos_y {
                        q += 1;
                    }
                    if !occ.neg_z {
                        q += 1;
                    }
                    if !occ.pos_z {
                        q += 1;
                    }
                    q
                },
                _ => 0,
            }
        };
        proof {
            assert(k == block_quads(shape_data@, b as int).len());
        }
        count += k;
        b += 1;
    }
    if count > 16384 {
        return None;
    }
    // Second pass: emit the quads; the running vertex count stays within the
    // 16-bit index range because the total is already known.
    let mut mesh = ChunkMesher::new();
    proof {
        assert(mesh.vertices@ =~= quads_vertices(chunk_quads(shape_data@, 0)));
        assert(mesh.normals@ =~= quads_normals(chunk_quads(shape_data@, 0)));
        assert(mesh.uvs@ =~= quads_uvs(chunk_quads(shape_data@, 0)));
        assert(mesh.indices@ =~= quads_indices_from(0, chunk_quads(shape_data@, 0)));
    }
    let mut b: usize = 0;
    while b < 4096
        invariant
            shape_data@.len() == 5832,
            b <= 4096,
            count == chunk_quads(shape_data@, 4096).len(),
            count <= 16384,
            mesh.vertices@ == quads_vertices(chunk_quads(shape_data@, b as int)),
            mesh.normals@ == quads_normals(chunk_quads(shape_data@, b as int)),
            mesh.uvs@ == quads_uvs(chunk_quads(shape_data@, b as int)),
            mesh.indices@ == quads_indices_from(0, chunk_quads(shape_data@, b as int)),
        decreases 4096 - b,
    {
        let ghost done = chunk_quads(shape_data@, b as int);
        let local = cube_offset(b);
        let si = pad_index(local.x, local.y, local.z);
        let shape = shape_data[si];
        if !shape.get_occlusion().inner {
            let occ = occlusion_from_neighbors(shape_data, local.x, local.y, local.z);
            proof {
                lemma_quads_lens(0, done);
                lemma_chunk_quads_mono(shape_data@, b as int + 1, 4096);
                assert(chunk_quads(shape_data@, b as int + 1).len() == done.len() + block_quads(
                    shape_data@,
                    b as int,
                ).len());
                assert(block_quads(shape_data@, b as int) == shape.spec_quads(occ, local));
            }
            shape.push_to_mesh(&mut mesh, &occ, local);
            proof {
                lemma_quads_append(done, block_quads(shape_data@, b as int), 0);
            }
        } else {
            proof {
                assert(block_quads(shape_data@, b as int) =~= Seq::<(Point, Face)>::empty());
                assert(chunk_quads(shape_data@, b as int + 1) =~= done);
            }
        }
        b += 1;
    }
    Some(mesh)
}

/// The padded shape cuboid of a chunk: the chunk's own blocks plus the
/// one-block halo beyond them on every side.
pub open spec fn padded_region(chunk_coords: Point) -> Region {
    Region {
        min: Point {
            x: (16 * chunk_coords.x - 1) as i32,
            y: (16 * chunk_coords.y - 1) as i32,
            z: (16 * chunk_coords.z - 1) as i32,
        },
        max: Point {
            x: (16 * chunk_coords.x + 16) as i32,
            y: (16 * chunk_coords.y + 16) as i32,
            z: (16 * chunk_coords.z + 16) as i32,
        },
    }
}

/// The padded shape data of a chunk of a shape world, in the padded cuboid's
/// row-major order.
pub open spec fn chunk_shape_data(shapes: VoxelWorld<BlockShape>, chunk_coords: Point) -> Seq<
    BlockShape,
> {
    Seq::new(5832, |i: int| shapes.spec_get(padded_region(chunk_coords).spec_point(i)))
}

/// Generates a new chunk mesh for the chunk at the indicated chunk
/// coordinates of a shape world.
///
/// The chunk's shapes and their one-block halo are read from the world in one
/// batch, and meshed as [`mesh_chunk`] describes; faces between two mutually
/// occluding blocks are culled, also across the chunk boundary.
pub fn generate_chunk_mesh(chunk_coords: Point, shapes: &VoxelWorld<BlockShape>) -> (r: Option<
    ChunkMesher,
>)
    requires
        shapes.wf(),
        -0x7ff_ffff <= chunk_coords.x <= 0x7ff_fffe,
        -0x7ff_ffff <= chunk_coords.y <= 0x7ff_fffe,
        -0x7ff_ffff <= chunk_coords.z <= 0x7ff_fffe,
    ensures
        r is Some <==> 4 * chunk_quads(chunk_shape_data(*shapes, chunk_coords), 4096).len()
            <= 65536,
        (match r {
            Some(m) => {
                let qs = chunk_quads(chunk_shape_data(*shapes, chunk_coords), 4096);
                &&& m.vertices@ == quads_vertices(qs)
                &&& m.normals@ == quads_normals(qs)
                &&& m.uvs@ == quads_uvs(qs)
                &&& m.indices@ == quads_indices_from(0, qs)
            },
            None => true,
        }),
{
    let min = Point {
        x: 16 * chunk_coords.x - 1,
        y: 16 * chunk_coords.y - 1,
        z: 16 * chunk_coords.z - 1,
    };
    let max = Point {
        x: 16 * chunk_coords.x + 16,
        y: 16 * chunk_coords.y + 16,
        z: 16 * chunk_coords.z + 16,
    };
    let volume = Region::from_points(min, max);
    proof {
        assert(volume == padded_region(chunk_coords));
        assert(volume.spec_count() == 5832) by (nonlinear_arith)
            requires
                volume.sx() == 18 && volume.sy() == 18 && volume.sz() == 18,
                volume.spec_count() == volume.sx() * volume.sy() * volume.sz(),
        ;
    }
    let data = shapes.get_block_region(volume);
    proof {
        assert(data@ =~= chunk_shape_data(*shapes, chunk_coords));
    }
    mesh_chunk(&data)
}

} // verus!
