//! Block shape and face-occlusion data for chunk mesh generation.
//!
//! Every block reports a shape, each shape reports which of its faces occlude
//! their neighbors (and whether it occludes itself entirely), and a cube
//! shape emits one quad per unoccluded face into a [`ChunkMesher`]. All
//! geometry is on the integer lattice: vertex positions are block corners,
//! normals are unit axis vectors, and texture coordinates are the four unit
//! square corners.

use crate::coords::Point;
use crate::mesher::ChunkMesher;
use crate::world::BlockData;
use vstd::prelude::*;

verus! {

/// Defines which sides of a block are occluded, one flag per face.
///
/// A set flag means that side of the block is hidden; a cleared flag means
/// the face is visible. The `inner` flag marks a block that hides itself
/// entirely (an empty block has nothing to draw).
#[derive(Clone, Copy, Debug, PartialEq, Eq, Structural)]
pub struct BlockOcclusion {
    /// The inside of the block itself: the block hides itself entirely.
    pub inner: bool,
    /// The side of the block on the positive X axis.
    pub pos_x: bool,
    /// The side of the block on the negative X axis.
    pub neg_x: bool,
    /// The side of the block on the positive Y axis.
    pub pos_y: bool,
    /// The side of the block on the negative Y axis.
    pub neg_y: bool,
    /// The side of the block on the positive Z axis.
    pub pos_z: bool,
    /// The side of the block on the negative Z axis.
    pub neg_z: bool,
}

impl BlockOcclusion {
    /// The occlusion value with no side occluded.
    pub open spec fn spec_empty() -> BlockOcclusion {
        BlockOcclusion {
            inner: false,
            pos_x: false,
            neg_x: false,
            pos_y: false,
            neg_y: false,
            pos_z: false,
            neg_z: false,
        }
    }

    /// Creates the occlusion value with no side occluded.
    pub fn empty() -> (r: BlockOcclusion)
        ensures
            r == BlockOcclusion::spec_empty(),
    {
        BlockOcclusion {
            inner: false,
            pos_x: false,
            neg_x: false,
            pos_y: false,
            neg_y: false,
            pos_z: false,
            neg_z: false,
        }
    }

    /// The opposite facing value: the positive and negative flag of each axis
    /// swap, independently per axis, while the inner flag stays unchanged.
    pub open spec fn spec_opposite(self) -> BlockOcclusion {
        BlockOcclusion {
            inner: self.inner,
            pos_x: self.neg_x,
            neg_x: self.pos_x,
            pos_y: self.neg_y,
            neg_y: self.pos_y,
            pos_z: self.neg_z,
            neg_z: self.pos_z,
        }
    }

    /// Gets the opposite facing value for this block occlusion.
    ///
    /// For a positive value along an axis this returns the negative value of
    /// that axis, and likewise a negative value returns its positive
    /// counterpart; inner occlusion remains unchanged.
    pub fn opposite_face(&self) -> (r: BlockOcclusion)
        ensures
            r == self.spec_opposite(),
    {
        BlockOcclusion {
            inner: self.inner,
            pos_x: self.neg_x,
            neg_x: self.pos_x,
            pos_y: self.neg_y,
            neg_y: self.pos_y,
            pos_z: self.neg_z,
            neg_z: self.pos_z,
        }
    }

    /// Taking the opposite face twice gives back the original flags, for
    /// every flag combination.
    pub proof fn lemma_opposite_face_involution(f: BlockOcclusion)
        ensures
            f.spec_opposite().spec_opposite() == f,
    {
    }
}

/// One of the six axis-aligned faces of a block.
#[derive(Clone, Copy, Debug, PartialEq, Eq, Structural)]
pub enum Face {
    /// The face toward the negative X axis.
    NegX,
    /// The face toward the positive X axis.
    PosX,
    /// The face toward the negative Y axis.
    NegY,
    /// The face toward the positive Y axis.
    PosY,
    /// The face toward the negative Z axis.
    NegZ,
    /// The face toward the positive Z axis.
    PosZ,
}

/// Whether the given face is visible (not occluded) under the given flags.
pub open spec fn face_visible(occ: BlockOcclusion, f: Face) -> bool {
    match f {
        Face::NegX => !occ.neg_x,
        Face::PosX => !occ.pos_x,
        Face::NegY => !occ.neg_y,
        Face::PosY => !occ.pos_y,
        Face::NegZ => !occ.neg_z,
        Face::PosZ => !occ.pos_z,
    }
}

/// The outward unit normal of a face.
pub open spec fn face_normal(f: Face) -> Point {
    match f {
        Face::NegX => Point { x: -1i32, y: 0, z: 0 },
        Face::PosX => Point { x: 1, y: 0, z: 0 },
        Face::NegY => Point { x: 0, y: -1i32, z: 0 },
        Face::PosY => Point { x: 0, y: 1, z: 0 },
        Face::NegZ => Point { x: 0, y: 0, z: -1i32 },
        Face::PosZ => Point { x: 0, y: 0, z: 1 },
    }
}

/// The eight corners of the unit cube, in the fixed lookup order shared by
/// all faces.
pub open spec fn cube_corner(k: int) -> Point {
    Point {
        x: if k >= 4 {
            1
        } else {
            0
        },
        y: if k == 2 || k == 3 || k == 6 || k == 7 {
            1
        } else {
            0
        },
        z: if k % 2 == 1 {
            1
        } else {
            0
        },
    }
}

/// The corner-table entry of the `j`-th vertex of a face's quad, in
/// counter-clockwise winding viewed from outside the cube.
pub open spec fn face_corner(f: Face, j: int) -> int {
    match f {
        Face::NegX => if j == 0 {
            0
        } else if j == 1 {
            1
        } else if j == 2 {
            3
        } else {
            2
        },
        Face::PosX => if j == 0 {
            4
        } else if j == 1 {
            6
        } else if j == 2 {
            7
        } else {
            5
        },
        Face::NegY => if j == 0 {
            0
        } else if j == 1 {
            4
        } else if j == 2 {
            5
        } else {
            1
        },
        Face::PosY => if j == 0 {
            2
        } else if j == 1 {
            3
        } else if j == 2 {
            7
        } else {
            6
        },
        Face::NegZ => if j == 0 {
            0
        } else if j == 1 {
            2
        } else if j == 2 {
            6
        } else {
            4
        },
        Face::PosZ => if j == 0 {
            1
        } else if j == 1 {
            5
        } else if j == 2 {
            7
        } else {
            3
        },
    }
}

/// The position of the `j`-th vertex of a face's quad at a block position.
pub open spec fn quad_vertex(pos: Point, f: Face, j: int) -> Point {
    Point {
        x: (pos.x + cube_corner(face_corner(f, j)).x) as i32,
        y: (pos.y + cube_corner(face_corner(f, j)).y) as i32,
        z: (pos.z + cube_corner(face_corner(f, j)).z) as i32,
    }
}

/// A texture coordinate at a quad corner; both components are 0 or 1.
#[derive(Clone, Copy, Debug, PartialEq, Eq, Structural)]
pub struct TexCoord {
    /// The horizontal texture coordinate.
    pub u: u8,
    /// The vertical texture coordinate.
    pub v: u8,
}

/// The texture coordinate of the `j`-th vertex of any quad: the unit square
/// corners `(0,0), (0,1), (1,1), (1,0)` in order.
pub open spec fn quad_uv(j: int) -> TexCoord {
    if j == 0 {
        TexCoord { u: 0, v: 0 }
    } else if j == 1 {
        TexCoord { u: 0, v: 1 }
    } else if j == 2 {
        TexCoord { u: 1, v: 1 }
    } else {
        TexCoord { u: 1, v: 0 }
    }
}

/// The six triangle-list indices of one quad whose four vertices begin at
/// `base`: two counter-clockwise triangles `(base, base+1, base+2)` and
/// `(base, base+2, base+3)`.
pub open spec fn quad_index_block(base: int) -> Seq<u16> {
    seq![
        base as u16,
        (base + 1) as u16,
        (base + 2) as u16,
        base as u16,
        (base + 2) as u16,
        (base + 3) as u16,
    ]
}

/// The vertex positions of a quad list: four per quad, in quad order.
pub open spec fn quads_vertices(qs: Seq<(Point, Face)>) -> Seq<Point>
    decreases qs.len(),
{
    if qs.len() == 0 {
        Seq::empty()
    } else {
        quads_vertices(qs.drop_last()) + seq![
            quad_vertex(qs.last().0, qs.last().1, 0),
            quad_vertex(qs.last().0, qs.last().1, 1),
            quad_vertex(qs.last().0, qs.last().1, 2),
            quad_vertex(qs.last().0, qs.last().1, 3),
        ]
    }
}

/// The vertex normals of a quad list: the face normal, four times per quad.
pub open spec fn quads_normals(qs: Seq<(Point, Face)>) -> Seq<Point>
    decreases qs.len(),
{
    if qs.len() == 0 {
        Seq::empty()
    } else {
        quads_normals(qs.drop_last()) + seq![
            face_normal(qs.last().1),
            face_normal(qs.last().1),
            face_normal(qs.last().1),
            face_normal(qs.last().1),
        ]
    }
}

/// The texture coordinates of a quad list: the four unit square corners per
/// quad.
pub open spec fn quads_uvs(qs: Seq<(Point, Face)>) -> Seq<TexCoord>
    decreases qs.len(),
{
    if qs.len() == 0 {
        Seq::empty()
    } else {
        quads_uvs(qs.drop_last()) + seq![quad_uv(0), quad_uv(1), quad_uv(2), quad_uv(3)]
    }
}

/// The triangle indices of a quad list whose first vertex sits at `base` of
/// the shared vertex buffer: each quad's six indices use the running vertex
/// count at the time it is appended.
pub open spec fn quads_indices_from(base: int, qs: Seq<(Point, Face)>) -> Seq<u16>
    decreases qs.len(),
{
    if qs.len() == 0 {
        Seq::empty()
    } else {
        quads_indices_from(base, qs.drop_last()) + quad_index_block(base + 4 * (qs.len() - 1))
    }
}

/// The quads a cube at `pos` emits under the given occlusion flags: one per
/// unoccluded face, in the fixed face order.
pub open spec fn cube_quads(pos: Point, occ: BlockOcclusion) -> Seq<(Point, Face)> {
    (if !occ.neg_x {
        seq![(pos, Face::NegX)]
    } else {
        Seq::empty()
    }) + (if !occ.pos_x {
        seq![(pos, Face::PosX)]
    } else {
        Seq::empty()
    }) + (if !occ.neg_y {
        seq![(pos, Face::NegY)]
    } else {
        Seq::empty()
    }) + (if !occ.pos_y {
        seq![(pos, Face::PosY)]
    } else {
        Seq::empty()
    }) + (if !occ.neg_z {
        seq![(pos, Face::NegZ)]
    } else {
        Seq::empty()
    }) + (if !occ.pos_z {
        seq![(pos, Face::PosZ)]
    } else {
        Seq::empty()
    })
}

/// The block shape to use when generating a chunk mesh.
#[derive(Clone, Copy, Debug, PartialEq, Eq, Structural, Default)]
pub enum BlockShape {
    /// An empty block: no visual mesh elements at all.
    #[default]
    Empty,
    /// A basic one-meter cube shape.
    Cube,
    /// A custom block model rendered by a separate collaborator, not by the
    /// chunk mesher; it contributes no chunk geometry and occludes nothing.
    Custom,
}

impl BlockData for BlockShape {
    open spec fn spec_default() -> BlockShape {
        BlockShape::Empty
    }

    fn default_value() -> BlockShape {
        BlockShape::Empty
    }

    fn is_default(&self) -> bool {
        match self {
            BlockShape::Empty => true,
            _ => false,
        }
    }
}

impl BlockShape {
    /// The occlusion flags of this shape: an empty block hides only itself, a
    /// cube hides all six neighboring faces, and a custom shape hides
    /// nothing.
    pub open spec fn spec_occlusion(self) -> BlockOcclusion {
        match self {
            BlockShape::Empty => BlockOcclusion {
                inner: true,
                pos_x: false,
                neg_x: false,
                pos_y: false,
                neg_y: false,
                pos_z: false,
                neg_z: false,
            },
            BlockShape::Custom => BlockOcclusion::spec_empty(),
            BlockShape::Cube => BlockOcclusion {
                inner: false,
                pos_x: true,
                neg_x: true,
                pos_y: true,
                neg_y: true,
                pos_z: true,
                neg_z: true,
            },
        }
    }

    /// Gets the block occlusion flags for this block shape.
    pub fn get_occlusion(&self) -> (r: BlockOcclusion)
        ensures
            r == self.spec_occlusion(),
    {
        match self {
            BlockShape::Empty => BlockOcclusion {
                inner: true,
                pos_x: false,
                neg_x: false,
                pos_y: false,
                neg_y: false,
                pos_z: false,
                neg_z: false,
            },
            BlockShape::Custom => BlockOcclusion::empty(),
            BlockShape::Cube => BlockOcclusion {
                inner: false,
                pos_x: true,
                neg_x: true,
                pos_y: true,
                neg_y: true,
                pos_z: true,
                neg_z: true,
            },
        }
    }

    /// The quads this shape emits at a position under the given occlusion
    /// flags: a cube emits one quad per unoccluded face, everything else
    /// emits nothing.
    pub open spec fn spec_quads(self, occ: BlockOcclusion, pos: Point) -> Seq<(Point, Face)> {
        match self {
            BlockShape::Cube => cube_quads(pos, occ),
            _ => Seq::empty(),
        }
    }

    /// Writes the mesh data for this block shape to the temporary mesh, based
    /// on the provided block occlusion flags.
    pub fn push_to_mesh(&self, mesh: &mut ChunkMesher, occlusion: &BlockOcclusion, pos: Point)
        requires
            pos.x < 0x7fff_ffff,
            pos.y < 0x7fff_ffff,
            pos.z < 0x7fff_ffff,
            old(mesh).vertices@.len() + 4 * self.spec_quads(*occlusion, pos).len() <= 65536,
        ensures
            final(mesh).vertices@ == old(mesh).vertices@ + quads_vertices(
                self.spec_quads(*occlusion, pos),
            ),
            final(mesh).normals@ == old(mesh).normals@ + quads_normals(
                self.spec_quads(*occlusion, pos),
            ),
            final(mesh).uvs@ == old(mesh).uvs@ + quads_uvs(self.spec_quads(*occlusion, pos)),
            final(mesh).indices@ == old(mesh).indices@ + quads_indices_from(
                old(mesh).vertices@.len() as int,
                self.spec_quads(*occlusion, pos),
            ),
    {
        match self {
            BlockShape::Empty | BlockShape::Custom => {
                proof {
                    let qs = self.spec_quads(*occlusion, pos);
                    assert(mesh.vertices@ =~= mesh.vertices@ + quads_vertices(qs));
                    assert(mesh.normals@ =~= mesh.normals@ + quads_normals(qs));
                    assert(mesh.uvs@ =~= mesh.uvs@ + quads_uvs(qs));
                    assert(mesh.indices@ =~= mesh.indices@ + quads_indices_from(
                        mesh.vertices@.len() as int,
                        qs,
                    ));
                }
            },
            BlockShape::Cube => {
                write_cube(mesh, occlusion, pos);
            },
        }
    }
}

/// Appending one quad extends each buffer model by that quad's four entries
/// (six entries for the index buffer).
proof fn lemma_quads_snoc(qs: Seq<(Point, Face)>, q: (Point, Face), base: int)
    ensures
        quads_vertices(qs.push(q)) == quads_vertices(qs) + seq![
            quad_vertex(q.0, q.1, 0),
            quad_vertex(q.0, q.1, 1),
            quad_vertex(q.0, q.1, 2),
            quad_vertex(q.0, q.1, 3),
        ],
        quads_normals(qs.push(q)) == quads_normals(qs) + seq![
            face_normal(q.1),
            face_normal(q.1),
            face_normal(q.1),
            face_normal(q.1),
        ],
        quads_uvs(qs.push(q)) == quads_uvs(qs) + seq![quad_uv(0), quad_uv(1), quad_uv(2), quad_uv(3)],
        quads_indices_from(base, qs.push(q)) == quads_indices_from(base, qs) + quad_index_block(
            base + 4 * qs.len(),
        ),
{
    let s = qs.push(q);
    assert(s.drop_last() =~= qs);
    assert(s.last() == q);
}

/// The face at position `k` of the fixed order in which a cube's faces are
/// written.
pub open spec fn face_at(k: int) -> Face {
    if k == 0 {
        Face::NegX
    } else if k == 1 {
        Face::PosX
    } else if k == 2 {
        Face::NegY
    } else if k == 3 {
        Face::PosY
    } else if k == 4 {
        Face::NegZ
    } else {
        Face::PosZ
    }
}

/// The quads a cube emits among the first `n` faces of the fixed order.
pub open spec fn cube_quads_to(pos: Point, occ: BlockOcclusion, n: int) -> Seq<(Point, Face)>
    decreases n,
{
    if n <= 0 {
        Seq::empty()
    } else {
        cube_quads_to(pos, occ, n - 1) + (if face_visible(occ, face_at(n - 1)) {
            seq![(pos, face_at(n - 1))]
        } else {
            Seq::empty()
        })
    }
}

/// Walking all six faces in order emits exactly the cube's quads.
proof fn lemma_cube_quads_to_all(pos: Point, occ: BlockOcclusion)
    ensures
        cube_quads_to(pos, occ, 6) == cube_quads(pos, occ),
{
    reveal_with_fuel(cube_quads_to, 7);
    assert(cube_quads_to(pos, occ, 6) =~= cube_quads(pos, occ));
}

/// The emitted quad count grows with the number of faces walked.
proof fn lemma_cube_quads_to_mono(pos: Point, occ: BlockOcclusion, n1: int, n2: int)
    requires
        0 <= n1 <= n2,
    ensures
        cube_quads_to(pos, occ, n1).len() <= cube_quads_to(pos, occ, n2).len(),
    decreases n2 - n1,
{
    if n1 < n2 {
        lemma_cube_quads_to_mono(pos, occ, n1, n2 - 1);
    }
}

/// Looks up the face at a position of the fixed face order.
fn face_index(k: usize) -> (f: Face)
    requires
        k < 6,
    ensures
        f == face_at(k as int),
{
    if k == 0 {
        Face::NegX
    } else if k == 1 {
        Face::PosX
    } else if k == 2 {
        Face::NegY
    } else if k == 3 {
        Face::PosY
    } else if k == 4 {
        Face::NegZ
    } else {
        Face::PosZ
    }
}

/// Writes a cube shape to the temporary mesh: one quad for each face whose
/// occlusion flag is cleared, in the fixed face order.
fn write_cube(mesh: &mut ChunkMesher, occlusion: &BlockOcclusion, pos: Point)
    requires
        pos.x < 0x7fff_ffff,
        pos.y < 0x7fff_ffff,
        pos.z < 0x7fff_ffff,
        old(mesh).vertices@.len() + 4 * cube_quads(pos, *occlusion).len() <= 65536,
    ensures
        final(mesh).vertices@ == old(mesh).vertices@ + quads_vertices(cube_quads(pos, *occlusion)),
        final(mesh).normals@ == old(mesh).normals@ + quads_normals(cube_quads(pos, *occlusion)),
        final(mesh).uvs@ == old(mesh).uvs@ + quads_uvs(cube_quads(pos, *occlusion)),
        final(mesh).indices@ == old(mesh).indices@ + quads_indices_from(
            old(mesh).vertices@.len() as int,
            cube_quads(pos, *occlusion),
        ),
{
    let ghost base0 = old(mesh).vertices@.len() as int;
    proof {
        lemma_cube_quads_to_all(pos, *occlusion);
        let qs0 = cube_quads_to(pos, *occlusion, 0);
        assert(quads_vertices(qs0) =~= Seq::<Point>::empty());
        assert(quads_normals(qs0) =~= Seq::<Point>::empty());
        assert(quads_uvs(qs0) =~= Seq::<TexCoord>::empty());
        assert(quads_indices_from(base0, qs0) =~= Seq::<u16>::empty());
        assert(mesh.vertices@ =~= old(mesh).vertices@ + quads_vertices(qs0));
        assert(mesh.normals@ =~= old(mesh).normals@ + quads_normals(qs0));
        assert(mesh.uvs@ =~= old(mesh).uvs@ + quads_uvs(qs0));
        assert(mesh.indices@ =~= old(mesh).indices@ + quads_indices_from(base0, qs0));
    }
    let mut fi: usize = 0;
    while fi < 6
        invariant
            fi <= 6,
            pos.x < 0x7fff_ffff,
            pos.y < 0x7fff_ffff,
            pos.z < 0x7fff_ffff,
            base0 == old(mesh).vertices@.len(),
            old(mesh).vertices@.len() + 4 * cube_quads_to(pos, *occlusion, 6).len() <= 65536,
            mesh.vertices@ == old(mesh).vertices@ + quads_vertices(
                cube_quads_to(pos, *occlusion, fi as int),
            ),
            mesh.normals@ == old(mesh).normals@ + quads_normals(
                cube_quads_to(pos, *occlusion, fi as int),
            ),
            mesh.uvs@ == old(mesh).uvs@ + quads_uvs(cube_quads_to(pos, *occlusion, fi as int)),
            mesh.indices@ == old(mesh).indices@ + quads_indices_from(
                base0,
                cube_quads_to(pos, *occlusion, fi as int),
            ),
        decreases 6 - fi,
    {
        let ghost qs = cube_quads_to(pos, *occlusion, fi as int);
        let f = face_index(fi);
        let visible = match f {
            Face::NegX => !occlusion.neg_x,
            Face::PosX => !occlusion.pos_x,
            Face::NegY => !occlusion.neg_y,
            Face::PosY => !occlusion.pos_y,
            Face::NegZ => !occlusion.neg_z,
            Face::PosZ => !occlusion.pos_z,
        };
        if visible {
            proof {
                lemma_quads_snoc(qs, (pos, f), base0);
                lemma_cube_quads_to_mono(pos, *occlusion, fi as int + 1, 6);
                crate::mesher::lemma_quads_lens(base0, qs);
                assert(cube_quads_to(pos, *occlusion, fi as int + 1) =~= qs.push((pos, f)));
            }
            push_quad(mesh, pos, f);
            proof {
                let qs2 = cube_quads_to(pos, *occlusion, fi as int + 1);
                assert(mesh.vertices@ =~= old(mesh).vertices@ + quads_vertices(qs2));
                assert(mesh.normals@ =~= old(mesh).normals@ + quads_normals(qs2));
                assert(mesh.uvs@ =~= old(mesh).uvs@ + quads_uvs(qs2));
                assert(mesh.indices@ =~= old(mesh).indices@ + quads_indices_from(base0, qs2));
            }
        } else {
            proof {
                assert(cube_quads_to(pos, *occlusion, fi as int + 1) =~= qs);
            }
        }
        fi += 1;
    }
    proof {
        lemma_cube_quads_to_all(pos, *occlusion);
    }
}

/// Looks up the `j`-th quad corner of a face in the unit cube corner table.
fn quad_corner(f: Face, j: usize) -> (c: Point)
    requires
        j < 4,
    ensures
        c == cube_corner(face_corner(f, j as int)),
{
    let k: usize = match f {
        Face::NegX => if j == 0 {
            0
        } else if j == 1 {
            1
        } else if j == 2 {
            3
        } else {
            2
        },
        Face::PosX => if j == 0 {
            4
        } else if j == 1 {
            6
        } else if j == 2 {
            7
        } else {
            5
        },
        Face::NegY => if j == 0 {
            0
        } else if j == 1 {
            4
        } else if j == 2 {
            5
        } else {
            1
        },
        Face::PosY => if j == 0 {
            2
        } else if j == 1 {
            3
        } else if j == 2 {
            7
        } else {
            6
        },
        Face::NegZ => if j == 0 {
            0
        } else if j == 1 {
            2
        } else if j == 2 {
            6
        } else {
            4
        },
        Face::PosZ => if j == 0 {
            1
        } else if j == 1 {
            5
        } else if j == 2 {
            7
        } else {
            3
        },
    };
    Point {
        x: if k >= 4 {
            1
        } else {
            0
        },
        y: if k == 2 || k == 3 || k == 6 || k == 7 {
            1
        } else {
            0
        },
        z: if k % 2 == 1 {
            1
        } else {
            0
        },
    }
}

/// Appends one face quad to the mesh: four vertices, four copies of the face
/// normal, the four unit square texture corners, and six triangle indices
/// based at the running vertex count.
fn push_quad(mesh: &mut ChunkMesher, pos: Point, f: Face)
    requires
        pos.x < 0x7fff_ffff,
        pos.y < 0x7fff_ffff,
        pos.z < 0x7fff_ffff,
        old(mesh).vertices@.len() + 4 <= 65536,
    ensures
        final(mesh).vertices@ == old(mesh).vertices@ + seq![
            quad_vertex(pos, f, 0),
            quad_vertex(pos, f, 1),
            quad_vertex(pos, f, 2),
            quad_vertex(pos, f, 3),
        ],
        final(mesh).normals@ == old(mesh).normals@ + seq![
            face_normal(f),
            face_normal(f),
            face_normal(f),
            face_normal(f),
        ],
        final(mesh).uvs@ == old(mesh).uvs@ + seq![quad_uv(0), quad_uv(1), quad_uv(2), quad_uv(3)],
        final(mesh).indices@ == old(mesh).indices@ + quad_index_block(
            old(mesh).vertices@.len() as int,
        ),
{
    let vert_count: u16 = mesh.vertices.len() as u16;
    mesh.indices.push(vert_count);
    mesh.indices.push(vert_count + 1);
    mesh.indices.push(vert_count + 2);
    mesh.indices.push(vert_count);
    mesh.indices.push(vert_count + 2);
    mesh.indices.push(vert_count + 3);
    let c0 = quad_corner(f, 0);
    let c1 = quad_corner(f, 1);
    let c2 = quad_corner(f, 2);
    let c3 = quad_corner(f, 3);
    mesh.vertices.push(Point { x: pos.x + c0.x, y: pos.y + c0.y, z: pos.z + c0.z });
    mesh.vertices.push(Point { x: pos.x + c1.x, y: pos.y + c1.y, z: pos.z + c1.z });
    mesh.vertices.push(Point { x: pos.x + c2.x, y: pos.y + c2.y, z: pos.z + c2.z });
    mesh.vertices.push(Point { x: pos.x + c3.x, y: pos.y + c3.y, z: pos.z + c3.z });
    let n = match f {
        Face::NegX => Point { x: -1i32, y: 0, z: 0 },
        Face::PosX => Point { x: 1, y: 0, z: 0 },
        Face::NegY => Point { x: 0, y: -1i32, z: 0 },
        Face::PosY => Point { x: 0, y: 1, z: 0 },
        Face::NegZ => Point { x: 0, y: 0, z: -1i32 },
        Face::PosZ => Point { x: 0, y: 0, z: 1 },
    };
    mesh.normals.push(n);
    mesh.normals.push(n);
    mesh.normals.push(n);
    mesh.normals.push(n);
    mesh.uvs.push(TexCoord { u: 0, v: 0 });
    mesh.uvs.push(TexCoord { u: 0, v: 1 });
    mesh.uvs.push(TexCoord { u: 1, v: 1 });
    mesh.uvs.push(TexCoord { u: 1, v: 0 });
    proof {
        assert(mesh.vertices@ =~= old(mesh).vertices@ + seq![
            quad_vertex(pos, f, 0),
            quad_vertex(pos, f, 1),
            quad_vertex(pos, f, 2),
            quad_vertex(pos, f, 3),
        ]);
        assert(mesh.normals@ =~= old(mesh).normals@ + seq![
            face_normal(f),
            face_normal(f),
            face_normal(f),
            face_normal(f),
        ]);
        assert(mesh.uvs@ =~= old(mesh).uvs@ + seq![
            quad_uv(0),
            quad_uv(1),
            quad_uv(2),
            quad_uv(3),
        ]);
        assert(mesh.indices@ =~= old(mesh).indices@ + quad_index_block(
            old(mesh).vertices@.len() as int,
        ));
    }
}

} // verus!
