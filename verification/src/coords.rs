//! Conversions between the block, chunk, and region coordinate spaces.
//!
//! A chunk is a 16x16x16 cube of blocks and a region is a 16x16x16 cube of
//! chunks, so every conversion is a floor division by 16 (correct for
//! negative coordinates) together with a remainder in `[0, 16)`. A linear
//! index over a 16-wide cube is always `x * 256 + y * 16 + z` over the local
//! (remainder) coordinates; the same convention is shared by the payload
//! storage, the load-state tracker, and the mesher.

use vstd::arithmetic::div_mod::{
    lemma_fundamental_div_mod, lemma_fundamental_div_mod_converse,
};
use vstd::prelude::*;

verus! {

/// A signed 3-component integer vector identifying one cell of a
/// three-dimensional grid: a block, chunk, or region coordinate.
#[derive(Clone, Copy, Debug, PartialEq, Eq, Structural)]
pub struct Point {
    /// The coordinate along the X axis.
    pub x: i32,
    /// The coordinate along the Y axis.
    pub y: i32,
    /// The coordinate along the Z axis.
    pub z: i32,
}

impl Point {
    /// Creates a point from its three components.
    pub fn new(x: i32, y: i32, z: i32) -> (p: Point)
        ensures
            p == (Point { x, y, z }),
    {
        Point { x, y, z }
    }
}

/// The linear index of local coordinates within a 16-wide cube.
pub open spec fn lin16(x: int, y: int, z: int) -> int {
    256 * x + 16 * y + z
}

/// The linear index of a point's block offset within its owning chunk.
pub open spec fn block_index_of(p: Point) -> int {
    lin16(p.x as int % 16, p.y as int % 16, p.z as int % 16)
}

/// The linear index of a point's chunk within that chunk's owning region.
pub open spec fn chunk_slot_of(p: Point) -> int {
    lin16((p.x as int / 16) % 16, (p.y as int / 16) % 16, (p.z as int / 16) % 16)
}

/// Euclidean division and remainder by 16 decompose any integer, with the
/// remainder in `[0, 16)`.
pub proof fn lemma_div16_decompose(v: int)
    ensures
        v == 16 * (v / 16) + (v % 16),
        0 <= v % 16 < 16,
{
    lemma_fundamental_div_mod(v, 16);
}

/// Scaling a coordinate by 16 and adding an offset in `[0, 16)` is inverted
/// exactly by division and remainder by 16.
pub proof fn lemma_scale16(c: int, o: int)
    requires
        0 <= o < 16,
    ensures
        (16 * c + o) / 16 == c,
        (16 * c + o) % 16 == o,
{
    lemma_fundamental_div_mod_converse(16 * c + o, 16, c, o);
}

/// The linear index over a 16-wide cube is inverted exactly by division and
/// remainder, so distinct local coordinates give distinct indices.
pub proof fn lemma_lin16_inverse(x: int, y: int, z: int)
    requires
        0 <= x < 16,
        0 <= y < 16,
        0 <= z < 16,
    ensures
        0 <= lin16(x, y, z) < 4096,
        lin16(x, y, z) / 256 == x,
        (lin16(x, y, z) / 16) % 16 == y,
        lin16(x, y, z) % 16 == z,
{
    let l = lin16(x, y, z);
    lemma_fundamental_div_mod_converse(l, 256, x, 16 * y + z);
    lemma_fundamental_div_mod_converse(l, 16, 16 * x + y, z);
    lemma_scale16(x, y);
}

/// Division by 16 of a negative value, phrased over the nonnegative value
/// `-1 - v` so that executable code can compute it with unsigned arithmetic.
proof fn lemma_neg_div16(v: int)
    requires
        v < 0,
    ensures
        v / 16 == -1 - ((-1 - v) / 16),
        v % 16 == 15 - ((-1 - v) % 16),
{
    let w = -1 - v;
    lemma_fundamental_div_mod(w, 16);
    lemma_fundamental_div_mod_converse(v, 16, -1 - (w / 16), 15 - (w % 16));
}

/// Floor division by 16: the conversion from block to chunk coordinates (and
/// from chunk to region coordinates) along one axis. Rounds toward negative
/// infinity, so block `-1` maps to chunk `-1`.
pub fn floor_div16(v: i32) -> (q: i32)
    ensures
        q == v as int / 16,
        -0x800_0000 <= q < 0x800_0000,
{
    if v >= 0 {
        ((v as u32) / 16) as i32
    } else {
        let w: i32 = -1 - v;
        let d: i32 = ((w as u32) / 16) as i32;
        proof {
            lemma_neg_div16(v as int);
            lemma_fundamental_div_mod(w as int, 16);
        }
        -1 - d
    }
}

/// The local offset of a coordinate within its 16-wide cube: the Euclidean
/// remainder by 16, always in `[0, 16)` even for negative inputs.
pub fn local16(v: i32) -> (m: i32)
    ensures
        m == v as int % 16,
        0 <= m < 16,
{
    if v >= 0 {
        proof {
            lemma_div16_decompose(v as int);
        }
        ((v as u32) % 16) as i32
    } else {
        let w: i32 = -1 - v;
        let r: i32 = ((w as u32) % 16) as i32;
        proof {
            lemma_neg_div16(v as int);
            lemma_fundamental_div_mod(w as int, 16);
        }
        15 - r
    }
}

/// Converts a point one level up the coordinate hierarchy: block to chunk
/// coordinates, or chunk to region coordinates.
pub fn scale_down16(p: &Point) -> (c: Point)
    ensures
        c.x == p.x as int / 16,
        c.y == p.y as int / 16,
        c.z == p.z as int / 16,
        -0x800_0000 <= c.x < 0x800_0000,
        -0x800_0000 <= c.y < 0x800_0000,
        -0x800_0000 <= c.z < 0x800_0000,
{
    Point { x: floor_div16(p.x), y: floor_div16(p.y), z: floor_div16(p.z) }
}

/// The linear index of a point's local offset within its 16-wide cube:
/// `(x % 16) * 256 + (y % 16) * 16 + (z % 16)`.
pub fn cube_index(p: &Point) -> (i: usize)
    ensures
        i == block_index_of(*p),
        i < 4096,
{
    let lx: i32 = local16(p.x);
    let ly: i32 = local16(p.y);
    let lz: i32 = local16(p.z);
    (lx as usize) * 256 + (ly as usize) * 16 + (lz as usize)
}

/// Recovers the local coordinates within a 16-wide cube from a linear index.
pub fn cube_offset(i: usize) -> (p: Point)
    requires
        i < 4096,
    ensures
        p.x == (i as int / 16) / 16,
        p.y == (i as int / 16) % 16,
        p.z == i as int % 16,
        0 <= p.x < 16,
        0 <= p.y < 16,
        0 <= p.z < 16,
        lin16(p.x as int, p.y as int, p.z as int) == i,
{
    let x: usize = (i / 16) / 16;
    let y: usize = (i / 16) % 16;
    let z: usize = i % 16;
    proof {
        lemma_coord_recompose(i as int);
    }
    Point { x: x as i32, y: y as i32, z: z as i32 }
}

/// Two blocks of the same chunk with the same block offset are the same
/// block.
pub proof fn lemma_same_chunk_cell_implies_eq(p: Point, q: Point)
    requires
        p.x as int / 16 == q.x as int / 16,
        p.y as int / 16 == q.y as int / 16,
        p.z as int / 16 == q.z as int / 16,
        block_index_of(p) == block_index_of(q),
    ensures
        p == q,
{
    lemma_div16_decompose(p.x as int);
    lemma_div16_decompose(p.y as int);
    lemma_div16_decompose(p.z as int);
    lemma_div16_decompose(q.x as int);
    lemma_div16_decompose(q.y as int);
    lemma_div16_decompose(q.z as int);
    lemma_lin16_inverse(p.x as int % 16, p.y as int % 16, p.z as int % 16);
    lemma_lin16_inverse(q.x as int % 16, q.y as int % 16, q.z as int % 16);
}

/// The block index and chunk slot of any point are valid indices into a
/// 4096-element cube.
pub proof fn lemma_cell_ranges(p: Point)
    ensures
        0 <= block_index_of(p) < 4096,
        0 <= chunk_slot_of(p) < 4096,
{
    lemma_div16_decompose(p.x as int);
    lemma_div16_decompose(p.y as int);
    lemma_div16_decompose(p.z as int);
    lemma_div16_decompose(p.x as int / 16);
    lemma_div16_decompose(p.y as int / 16);
    lemma_div16_decompose(p.z as int / 16);
}

/// A coordinate is recovered exactly from its region coordinate, its chunk's
/// offset within the region, and its block offset within the chunk.
pub proof fn lemma_coord_recompose(v: int)
    ensures
        v == 256 * ((v / 16) / 16) + 16 * ((v / 16) % 16) + (v % 16),
        0 <= (v / 16) % 16 < 16,
        0 <= v % 16 < 16,
{
    lemma_div16_decompose(v);
    lemma_div16_decompose(v / 16);
}

/// Two blocks in the same region, in the same chunk slot of that region, and
/// at the same block offset of that chunk are the same block: the sparse
/// storage addressing scheme is injective.
pub proof fn lemma_same_cell_implies_eq(p: Point, q: Point)
    requires
        p.x as int / 16 / 16 == q.x as int / 16 / 16,
        p.y as int / 16 / 16 == q.y as int / 16 / 16,
        p.z as int / 16 / 16 == q.z as int / 16 / 16,
        chunk_slot_of(p) == chunk_slot_of(q),
        block_index_of(p) == block_index_of(q),
    ensures
        p == q,
{
    lemma_coord_recompose(p.x as int);
    lemma_coord_recompose(p.y as int);
    lemma_coord_recompose(p.z as int);
    lemma_coord_recompose(q.x as int);
    lemma_coord_recompose(q.y as int);
    lemma_coord_recompose(q.z as int);
    lemma_lin16_inverse(
        (p.x as int / 16) % 16,
        (p.y as int / 16) % 16,
        (p.z as int / 16) % 16,
    );
    lemma_lin16_inverse(
        (q.x as int / 16) % 16,
        (q.y as int / 16) % 16,
        (q.z as int / 16) % 16,
    );
    lemma_lin16_inverse(p.x as int % 16, p.y as int % 16, p.z as int % 16);
    lemma_lin16_inverse(q.x as int % 16, q.y as int % 16, q.z as int % 16);
}

/// The block at a given local cube index of a given chunk: scaling the chunk
/// coordinates by 16 and adding the local offset recovers exactly the blocks
/// whose chunk this is, with the given block index.
pub proof fn lemma_cube_compose(c: Point, x: int, y: int, z: int)
    requires
        0 <= x < 16,
        0 <= y < 16,
        0 <= z < 16,
    ensures
        (16 * c.x + x) / 16 == c.x,
        (16 * c.y + y) / 16 == c.y,
        (16 * c.z + z) / 16 == c.z,
        (16 * c.x + x) % 16 == x,
        (16 * c.y + y) % 16 == y,
        (16 * c.z + z) % 16 == z,
{
    lemma_scale16(c.x as int, x);
    lemma_scale16(c.y as int, y);
    lemma_scale16(c.z as int, z);
}

} // verus!
