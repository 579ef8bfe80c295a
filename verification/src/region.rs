//! Axis-aligned inclusive cuboids of grid points.
//!
//! A [`Region`] names every point between two corners, inclusive, and gives
//! them a row-major linear order: the point at offset `(x, y, z)` from the
//! minimum corner has index `x * sizeY * sizeZ + y * sizeZ + z`. The index
//! order therefore iterates `x` outermost, then `y`, then `z` innermost.

use crate::coords::Point;
use vstd::arithmetic::div_mod::{
    lemma_breakdown, lemma_fundamental_div_mod, lemma_fundamental_div_mod_converse,
};
use vstd::prelude::*;

verus! {

/// The typed failure returned when a point is looked up in a region that
/// does not contain it: a caller contract violation rather than sparse
/// absence, so it is surfaced instead of defaulted.
#[derive(Clone, Copy, Debug, PartialEq, Eq, Structural)]
pub struct OutOfRegion;

/// An axis-aligned cuboid of grid points, inclusive of both corners.
#[derive(Clone, Copy, Debug, PartialEq, Eq, Structural)]
pub struct Region {
    /// The corner with the smallest coordinate on every axis (inclusive).
    pub min: Point,
    /// The corner with the largest coordinate on every axis (inclusive).
    pub max: Point,
}

impl Region {
    /// A region is well formed when the minimum corner does not exceed the
    /// maximum corner on any axis, so it contains at least one point.
    pub open spec fn wf(self) -> bool {
        &&& self.min.x <= self.max.x
        &&& self.min.y <= self.max.y
        &&& self.min.z <= self.max.z
    }

    /// The side length along the X axis.
    pub open spec fn sx(self) -> int {
        self.max.x - self.min.x + 1
    }

    /// The side length along the Y axis.
    pub open spec fn sy(self) -> int {
        self.max.y - self.min.y + 1
    }

    /// The side length along the Z axis.
    pub open spec fn sz(self) -> int {
        self.max.z - self.min.z + 1
    }

    /// The number of points in the region: the product of its side lengths.
    pub open spec fn spec_count(self) -> int {
        self.sx() * self.sy() * self.sz()
    }

    /// Whether a point lies inside the region.
    pub open spec fn spec_contains(self, p: Point) -> bool {
        &&& self.min.x <= p.x <= self.max.x
        &&& self.min.y <= p.y <= self.max.y
        &&& self.min.z <= p.z <= self.max.z
    }

    /// The row-major linear index of a point, relative to the minimum corner.
    pub open spec fn spec_index_of(self, p: Point) -> int {
        (p.x - self.min.x) * (self.sy() * self.sz()) + (p.y - self.min.y) * self.sz() + (p.z
            - self.min.z)
    }

    /// The point at a given row-major linear index.
    pub open spec fn spec_point(self, i: int) -> Point {
        Point {
            x: (self.min.x + i / (self.sy() * self.sz())) as i32,
            y: (self.min.y + (i / self.sz()) % self.sy()) as i32,
            z: (self.min.z + i % self.sz()) as i32,
        }
    }

    /// Every contained point has an index within the region's count.
    pub proof fn lemma_index_of_bounds(self, p: Point)
        requires
            self.wf(),
            self.spec_contains(p),
        ensures
            0 <= self.spec_index_of(p) < self.spec_count(),
    {
        let a = p.x - self.min.x;
        let b = p.y - self.min.y;
        let c = p.z - self.min.z;
        assert(0 <= a * (self.sy() * self.sz()) + b * self.sz() + c < self.sx() * (self.sy()
            * self.sz())) by (nonlinear_arith)
            requires
                0 <= a < self.sx(),
                0 <= b < self.sy(),
                0 <= c < self.sz(),
        ;
        assert(self.sx() * (self.sy() * self.sz()) == self.spec_count()) by (nonlinear_arith);
    }

    /// Mapping a contained point to its index and back recovers the point.
    pub proof fn lemma_point_index_roundtrip(self, p: Point)
        requires
            self.wf(),
            self.spec_contains(p),
        ensures
            self.spec_point(self.spec_index_of(p)) == p,
    {
        let a = p.x - self.min.x;
        let b = p.y - self.min.y;
        let c = p.z - self.min.z;
        let d = self.sy() * self.sz();
        let i = self.spec_index_of(p);
        assert(0 <= b * self.sz() + c < d && i == a * d + (b * self.sz() + c) && i == (a * self.sy()
            + b) * self.sz() + c) by (nonlinear_arith)
            requires
                0 <= a < self.sx(),
                0 <= b < self.sy(),
                0 <= c < self.sz(),
                d == self.sy() * self.sz(),
                i == a * d + b * self.sz() + c,
        ;
        lemma_fundamental_div_mod_converse(i, d, a, b * self.sz() + c);
        lemma_fundamental_div_mod_converse(i, self.sz(), a * self.sy() + b, c);
        lemma_fundamental_div_mod_converse(a * self.sy() + b, self.sy(), a, b);
    }

    /// Every index within the count names a contained point, and mapping the
    /// point back to its index recovers the index; so the indexing is a
    /// bijection between `[0, count)` and the contained points.
    pub proof fn lemma_index_point_roundtrip(self, i: int)
        requires
            self.wf(),
            0 <= i < self.spec_count(),
        ensures
            self.spec_contains(self.spec_point(i)),
            self.spec_index_of(self.spec_point(i)) == i,
    {
        let d = self.sy() * self.sz();
        assert(0 < d && 0 < self.sz() && self.spec_count() == self.sx() * d) by (nonlinear_arith)
            requires
                self.sy() >= 1 && self.sz() >= 1 && d == self.sy() * self.sz(),
                self.spec_count() == self.sx() * self.sy() * self.sz(),
        ;
        lemma_fundamental_div_mod(i, d);
        lemma_breakdown(i, self.sz(), self.sy());
        let x = i / d;
        let y = (i / self.sz()) % self.sy();
        let z = i % self.sz();
        assert(0 <= x < self.sx() && 0 <= i % d && i % d < d) by (nonlinear_arith)
            requires
                0 <= i < self.sx() * d,
                0 < d,
                x == i / d,
                i == d * (i / d) + i % d,
        ;
        assert(0 <= z < self.sz() && 0 <= y < self.sy()) by (nonlinear_arith)
            requires
                0 < self.sz() && 0 < self.sy(),
                z == i % self.sz(),
                y == (i / self.sz()) % self.sy(),
        ;
        assert(self.sz() * self.sy() == d && i % d == self.sz() * y + z) by (nonlinear_arith)
            requires
                d == self.sy() * self.sz(),
                i % (self.sz() * self.sy()) == self.sz() * ((i / self.sz()) % self.sy()) + i
                    % self.sz(),
                y == (i / self.sz()) % self.sy(),
                z == i % self.sz(),
        ;
        let p = self.spec_point(i);
        assert(p.x == self.min.x + x && p.y == self.min.y + y && p.z == self.min.z + z);
        assert(self.spec_index_of(p) == x * d + y * self.sz() + z) by (nonlinear_arith)
            requires
                p.x == self.min.x + x && p.y == self.min.y + y && p.z == self.min.z + z,
                d == self.sy() * self.sz(),
                self.spec_index_of(p) == (p.x - self.min.x) * (self.sy() * self.sz()) + (p.y
                    - self.min.y) * self.sz() + (p.z - self.min.z),
        ;
        assert(x * d + y * self.sz() + z == i) by (nonlinear_arith)
            requires
                i == d * x + i % d,
                i % d == self.sz() * y + z,
        ;
    }

    /// Creates the smallest region containing both of the given points; the
    /// corners may be passed in any order and on any axis.
    pub fn from_points(a: Point, b: Point) -> (r: Region)
        ensures
            r.wf(),
            r.min.x == if a.x <= b.x { a.x } else { b.x },
            r.min.y == if a.y <= b.y { a.y } else { b.y },
            r.min.z == if a.z <= b.z { a.z } else { b.z },
            r.max.x == if a.x <= b.x { b.x } else { a.x },
            r.max.y == if a.y <= b.y { b.y } else { a.y },
            r.max.z == if a.z <= b.z { b.z } else { a.z },
            r.spec_contains(a) && r.spec_contains(b),
    {
        let min = Point {
            x: if a.x <= b.x { a.x } else { b.x },
            y: if a.y <= b.y { a.y } else { b.y },
            z: if a.z <= b.z { a.z } else { b.z },
        };
        let max = Point {
            x: if a.x <= b.x { b.x } else { a.x },
            y: if a.y <= b.y { b.y } else { a.y },
            z: if a.z <= b.z { b.z } else { a.z },
        };
        Region { min, max }
    }

    /// Returns the number of points in the region.
    pub fn count(&self) -> (n: usize)
        requires
            self.wf(),
            self.spec_count() <= usize::MAX,
        ensures
            n == self.spec_count(),
    {
        let sx: u128 = (self.max.x as i64 - self.min.x as i64 + 1) as u128;
        let sy: u128 = (self.max.y as i64 - self.min.y as i64 + 1) as u128;
        let sz: u128 = (self.max.z as i64 - self.min.z as i64 + 1) as u128;
        assert(1 <= (sx as int) * (sy as int) <= 0x1_0000_0000_0000_0000) by (nonlinear_arith)
            requires
                1 <= sx <= 0x1_0000_0000,
                1 <= sy <= 0x1_0000_0000,
        ;
        let sxy: u128 = sx * sy;
        assert(sxy as int * sz as int <= 0x1_0000_0000_0000_0000_0000_0000) by (nonlinear_arith)
            requires
                1 <= sxy <= 0x1_0000_0000_0000_0000,
                1 <= sz <= 0x1_0000_0000,
        ;
        let n: u128 = sxy * sz;
        n as usize
    }

    /// Whether a point lies inside the region.
    pub fn contains(&self, p: Point) -> (b: bool)
        ensures
            b == self.spec_contains(p),
    {
        self.min.x <= p.x && p.x <= self.max.x && self.min.y <= p.y && p.y <= self.max.y
            && self.min.z <= p.z && p.z <= self.max.z
    }

    /// Returns the row-major linear index of a contained point, or the typed
    /// out-of-bounds failure exactly when the point lies outside the region.
    pub fn point_to_index(&self, p: Point) -> (r: Result<usize, OutOfRegion>)
        requires
            self.wf(),
            self.spec_count() <= usize::MAX,
        ensures
            self.spec_contains(p) ==> r == Ok::<usize, OutOfRegion>(
                self.spec_index_of(p) as usize,
            ),
            !self.spec_contains(p) ==> r == Err::<usize, OutOfRegion>(OutOfRegion),
    {
        if !self.contains(p) {
            return Err(OutOfRegion);
        }
        proof {
            self.lemma_index_of_bounds(p);
        }
        let sy: u128 = (self.max.y as i64 - self.min.y as i64 + 1) as u128;
        let sz: u128 = (self.max.z as i64 - self.min.z as i64 + 1) as u128;
        let dx: u128 = (p.x as i64 - self.min.x as i64) as u128;
        let dy: u128 = (p.y as i64 - self.min.y as i64) as u128;
        let dz: u128 = (p.z as i64 - self.min.z as i64) as u128;
        assert(sy as int * sz as int <= 0x1_0000_0000_0000_0000) by (nonlinear_arith)
            requires
                1 <= sy <= 0x1_0000_0000,
                1 <= sz <= 0x1_0000_0000,
        ;
        let syz: u128 = sy * sz;
        assert(dx as int * syz as int <= 0x1_0000_0000_0000_0000_0000_0000) by (nonlinear_arith)
            requires
                0 <= dx < 0x1_0000_0000,
                0 <= syz <= 0x1_0000_0000_0000_0000,
        ;
        let t1: u128 = dx * syz;
        assert((dy as int) * (sz as int) < 0x1_0000_0000_0000_0000) by (nonlinear_arith)
            requires
                0 <= dy < 0x1_0000_0000,
                0 <= sz <= 0x1_0000_0000,
        ;
        let t2: u128 = dy * sz;
        let i: u128 = t1 + t2 + dz;
        assert(i == self.spec_index_of(p));
        Ok(i as usize)
    }

    /// Returns the point at a given row-major linear index.
    pub fn index_to_point(&self, i: usize) -> (p: Point)
        requires
            self.wf(),
            i < self.spec_count(),
        ensures
            p == self.spec_point(i as int),
            self.spec_contains(p),
            self.spec_index_of(p) == i,
    {
        proof {
            self.lemma_index_point_roundtrip(i as int);
        }
        let sy: u128 = (self.max.y as i64 - self.min.y as i64 + 1) as u128;
        let sz: u128 = (self.max.z as i64 - self.min.z as i64 + 1) as u128;
        assert(1 <= sy as int * sz as int <= 0x1_0000_0000_0000_0000) by (nonlinear_arith)
            requires
                1 <= sy <= 0x1_0000_0000,
                1 <= sz <= 0x1_0000_0000,
        ;
        let syz: u128 = sy * sz;
        let x: u128 = (i as u128) / syz;
        let y: u128 = ((i as u128) / sz) % sy;
        let z: u128 = (i as u128) % sz;
        assert(x < self.sx() && y < self.sy() && z < self.sz()) by (nonlinear_arith)
            requires
                sy == self.sy() && sz == self.sz(),
                1 <= syz as int == sy as int * sz as int,
                x == (i as int) / (syz as int),
                y == ((i as int) / (sz as int)) % (sy as int),
                z == (i as int) % (sz as int),
                0 <= i as int,
                (i as int) < self.sx() * self.sy() * self.sz(),
                1 <= self.sx(),
                1 <= self.sy(),
                1 <= self.sz(),
        ;
        Point {
            x: (self.min.x as i64 + x as i64) as i32,
            y: (self.min.y as i64 + y as i64) as i32,
            z: (self.min.z as i64 + z as i64) as i32,
        }
    }
}

} // verus!
