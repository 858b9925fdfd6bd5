//! Axis-aligned bounding boxes.
//!
//! The empty box carries sentinel corners that dominate every legal
//! coordinate, which makes it the identity of `union`. The ray test is the
//! slab method, carried out exactly: each axis contributes a rational
//! parameter interval, and intervals are compared by cross-multiplying, so
//! no division is performed at all. `lemma_witness_implies_slab` is the
//! conservativity fact the hierarchy's closest-hit proof rests on: a ray
//! that reaches a point of the box at a positive rational parameter always
//! passes the test.

use vstd::prelude::*;

use crate::fixed::{imin, imax, tdiv, EMPTY_COORD};
use crate::ray::{Ray, ray_wf};
use crate::types::{Point3, bounded_p};

verus! {

#[derive(Clone, Copy, PartialEq, Eq, Structural, Debug)]
pub struct BoundingBox {
    pub min: Point3,
    pub max: Point3,
}

/// Corners stay within the sentinel bound, so unions and differences of
/// corner coordinates cannot overflow.
pub open spec fn box_wf(b: BoundingBox) -> bool {
    bounded_p(b.min, EMPTY_COORD as int) && bounded_p(b.max, EMPTY_COORD as int)
}

/// The empty box: `min` at the positive sentinel, `max` at the negative.
pub open spec fn empty_box() -> BoundingBox {
    BoundingBox {
        min: Point3 { x: EMPTY_COORD, y: EMPTY_COORD, z: EMPTY_COORD },
        max: Point3 {
            x: (-EMPTY_COORD) as i64,
            y: (-EMPTY_COORD) as i64,
            z: (-EMPTY_COORD) as i64,
        },
    }
}

/// Componentwise union of two boxes.
pub open spec fn union_spec(a: BoundingBox, b: BoundingBox) -> BoundingBox {
    BoundingBox {
        min: Point3 {
            x: imin(a.min.x as int, b.min.x as int) as i64,
            y: imin(a.min.y as int, b.min.y as int) as i64,
            z: imin(a.min.z as int, b.min.z as int) as i64,
        },
        max: Point3 {
            x: imax(a.max.x as int, b.max.x as int) as i64,
            y: imax(a.max.y as int, b.max.y as int) as i64,
            z: imax(a.max.z as int, b.max.z as int) as i64,
        },
    }
}

/// Grow a box to cover a point.
pub open spec fn add_point_spec(b: BoundingBox, p: Point3) -> BoundingBox {
    BoundingBox {
        min: Point3 {
            x: imin(b.min.x as int, p.x as int) as i64,
            y: imin(b.min.y as int, p.y as int) as i64,
            z: imin(b.min.z as int, p.z as int) as i64,
        },
        max: Point3 {
            x: imax(b.max.x as int, p.x as int) as i64,
            y: imax(b.max.y as int, p.y as int) as i64,
            z: imax(b.max.z as int, p.z as int) as i64,
        },
    }
}

/// `inner` lies inside `outer` (componentwise interval inclusion; the empty
/// box lies inside everything).
pub open spec fn box_le(inner: BoundingBox, outer: BoundingBox) -> bool {
    &&& outer.min.x <= inner.min.x || inner.min.x > inner.max.x
    &&& outer.min.y <= inner.min.y || inner.min.y > inner.max.y
    &&& outer.min.z <= inner.min.z || inner.min.z > inner.max.z
    &&& inner.max.x <= outer.max.x || inner.min.x > inner.max.x
    &&& inner.max.y <= outer.max.y || inner.min.y > inner.max.y
    &&& inner.max.z <= outer.max.z || inner.min.z > inner.max.z
}

/// Twice the sum of a box's three raw face areas.
pub open spec fn box_area(b: BoundingBox) -> int {
    2 * ((b.max.x - b.min.x) * (b.max.y - b.min.y) + (b.max.y - b.min.y) * (b.max.z - b.min.z) + (
    b.max.z - b.min.z) * (b.max.x - b.min.x))
}

/// The point `(px, py, pz)` lies in the box.
pub open spec fn contains_point(b: BoundingBox, px: int, py: int, pz: int) -> bool {
    &&& b.min.x <= px <= b.max.x
    &&& b.min.y <= py <= b.max.y
    &&& b.min.z <= pz <= b.max.z
}

// --- The slab test, exactly. -------------------------------------------
//
// On an axis where the direction component `d` is nonzero, the ray is
// inside the slab for parameters `t` in `[lo/den, hi/den]` with `den = |d|`.
// On an axis where `d` is zero the origin itself must lie in the slab.
// The box is hit when the (up to three) intervals and `(0, +inf)` meet,
// which cross-multiplied comparisons decide exactly.

/// Numerator of the slab entry parameter on one axis.
pub open spec fn lo_num(bmin: int, bmax: int, o: int, d: int) -> int {
    if d > 0 {
        bmin - o
    } else {
        o - bmax
    }
}

/// Numerator of the slab exit parameter on one axis.
pub open spec fn hi_num(bmin: int, bmax: int, o: int, d: int) -> int {
    if d > 0 {
        bmax - o
    } else {
        o - bmin
    }
}

/// Magnitude of the direction component: the common positive denominator.
pub open spec fn den_of(d: int) -> int {
    if d >= 0 {
        d
    } else {
        -d
    }
}

/// Entry of axis `a` does not pass exit of axis `b`:
/// `lo_a / den_a <= hi_b / den_b`, cross-multiplied.
pub open spec fn pair_ok(loa: int, dena: int, hib: int, denb: int) -> bool {
    loa * denb <= hib * dena
}

/// The exact slab-test verdict for a ray against a box.
pub open spec fn slab_spec(b: BoundingBox, r: Ray) -> bool {
    let ox = r.origin.x as int;
    let oy = r.origin.y as int;
    let oz = r.origin.z as int;
    let dx = r.dir.x as int;
    let dy = r.dir.y as int;
    let dz = r.dir.z as int;
    let lx = lo_num(b.min.x as int, b.max.x as int, ox, dx);
    let hx = hi_num(b.min.x as int, b.max.x as int, ox, dx);
    let ly = lo_num(b.min.y as int, b.max.y as int, oy, dy);
    let hy = hi_num(b.min.y as int, b.max.y as int, oy, dy);
    let lz = lo_num(b.min.z as int, b.max.z as int, oz, dz);
    let hz = hi_num(b.min.z as int, b.max.z as int, oz, dz);
    &&& dx == 0 ==> b.min.x <= ox <= b.max.x
    &&& dy == 0 ==> b.min.y <= oy <= b.max.y
    &&& dz == 0 ==> b.min.z <= oz <= b.max.z
    &&& dx != 0 ==> hx > 0
    &&& dy != 0 ==> hy > 0
    &&& dz != 0 ==> hz > 0
    &&& dx != 0 ==> pair_ok(lx, den_of(dx), hx, den_of(dx))
    &&& dy != 0 ==> pair_ok(ly, den_of(dy), hy, den_of(dy))
    &&& dz != 0 ==> pair_ok(lz, den_of(dz), hz, den_of(dz))
    &&& dx != 0 && dy != 0 ==> pair_ok(lx, den_of(dx), hy, den_of(dy)) && pair_ok(ly, den_of(dy),
        hx, den_of(dx))
    &&& dx != 0 && dz != 0 ==> pair_ok(lx, den_of(dx), hz, den_of(dz)) && pair_ok(lz, den_of(dz),
        hx, den_of(dx))
    &&& dy != 0 && dz != 0 ==> pair_ok(ly, den_of(dy), hz, den_of(dz)) && pair_ok(lz, den_of(dz),
        hy, den_of(dy))
}

/// The rational parameter `tn / td` lands inside `b` on every axis.
pub open spec fn in_box_at(b: BoundingBox, r: Ray, tn: int, td: int) -> bool {
    &&& (b.min.x - r.origin.x) * td <= r.dir.x * tn <= (b.max.x - r.origin.x) * td
    &&& (b.min.y - r.origin.y) * td <= r.dir.y * tn <= (b.max.y - r.origin.y) * td
    &&& (b.min.z - r.origin.z) * td <= r.dir.z * tn <= (b.max.z - r.origin.z) * td
}

/// On one axis, a rational witness inside the slab gives the cross-
/// multiplied interval facts.
proof fn lemma_axis_witness(bmin: int, bmax: int, o: int, d: int, tn: int, td: int)
    requires
        td > 0,
        (bmin - o) * td <= d * tn <= (bmax - o) * td,
    ensures
        d == 0 ==> bmin <= o <= bmax,
        d != 0 ==> lo_num(bmin, bmax, o, d) * td <= den_of(d) * tn,
        d != 0 ==> den_of(d) * tn <= hi_num(bmin, bmax, o, d) * td,
{
    if d == 0 {
        assert(bmin <= o <= bmax) by (nonlinear_arith)
            requires
                td > 0,
                (bmin - o) * td <= 0 <= (bmax - o) * td,
        ;
    } else if d > 0 {
    } else {
        assert((o - bmax) * td <= (-d) * tn && (-d) * tn <= (o - bmin) * td) by (nonlinear_arith)
            requires
                (bmin - o) * td <= d * tn <= (bmax - o) * td,
        ;
    }
}

/// Cross-multiplied transitivity through a shared rational witness.
proof fn lemma_pair_from_witness(loa: int, dena: int, hib: int, denb: int, tn: int, td: int)
    requires
        td > 0,
        dena > 0,
        denb > 0,
        loa * td <= dena * tn,
        denb * tn <= hib * td,
    ensures
        pair_ok(loa, dena, hib, denb),
{
    assert(loa * denb <= hib * dena) by (nonlinear_arith)
        requires
            td > 0,
            dena > 0,
            denb > 0,
            loa * td <= dena * tn,
            denb * tn <= hib * td,
    ;
}

/// Conservativity of the slab test: if some positive rational parameter of
/// the ray lands inside the box, the test reports a hit.
pub proof fn lemma_witness_implies_slab(b: BoundingBox, r: Ray, tn: int, td: int)
    requires
        td > 0,
        tn > 0,
        in_box_at(b, r, tn, td),
    ensures
        slab_spec(b, r),
{
    let ox = r.origin.x as int;
    let oy = r.origin.y as int;
    let oz = r.origin.z as int;
    let dx = r.dir.x as int;
    let dy = r.dir.y as int;
    let dz = r.dir.z as int;
    lemma_axis_witness(b.min.x as int, b.max.x as int, ox, dx, tn, td);
    lemma_axis_witness(b.min.y as int, b.max.y as int, oy, dy, tn, td);
    lemma_axis_witness(b.min.z as int, b.max.z as int, oz, dz, tn, td);
    let lx = lo_num(b.min.x as int, b.max.x as int, ox, dx);
    let hx = hi_num(b.min.x as int, b.max.x as int, ox, dx);
    let ly = lo_num(b.min.y as int, b.max.y as int, oy, dy);
    let hy = hi_num(b.min.y as int, b.max.y as int, oy, dy);
    let lz = lo_num(b.min.z as int, b.max.z as int, oz, dz);
    let hz = hi_num(b.min.z as int, b.max.z as int, oz, dz);
    if dx != 0 {
        lemma_hi_pos(hx, den_of(dx), tn, td);
    }
    if dy != 0 {
        lemma_hi_pos(hy, den_of(dy), tn, td);
    }
    if dz != 0 {
        lemma_hi_pos(hz, den_of(dz), tn, td);
    }
    if dx != 0 {
        lemma_pair_from_witness(lx, den_of(dx), hx, den_of(dx), tn, td);
    }
    if dy != 0 {
        lemma_pair_from_witness(ly, den_of(dy), hy, den_of(dy), tn, td);
    }
    if dz != 0 {
        lemma_pair_from_witness(lz, den_of(dz), hz, den_of(dz), tn, td);
    }
    if dx != 0 && dy != 0 {
        lemma_pair_from_witness(lx, den_of(dx), hy, den_of(dy), tn, td);
        lemma_pair_from_witness(ly, den_of(dy), hx, den_of(dx), tn, td);
    }
    if dx != 0 && dz != 0 {
        lemma_pair_from_witness(lx, den_of(dx), hz, den_of(dz), tn, td);
        lemma_pair_from_witness(lz, den_of(dz), hx, den_of(dx), tn, td);
    }
    if dy != 0 && dz != 0 {
        lemma_pair_from_witness(ly, den_of(dy), hz, den_of(dz), tn, td);
        lemma_pair_from_witness(lz, den_of(dz), hy, den_of(dy), tn, td);
    }
}

/// An exit numerator met by a positive witness is positive.
proof fn lemma_hi_pos(hi: int, den: int, tn: int, td: int)
    requires
        td > 0,
        tn > 0,
        den > 0,
        den * tn <= hi * td,
    ensures
        hi > 0,
{
    assert(hi > 0) by (nonlinear_arith)
        requires
            td > 0,
            tn > 0,
            den > 0,
            den * tn <= hi * td,
    ;
}

/// A witness inside an inner box is a witness inside any enclosing box.
pub proof fn lemma_witness_grows(inner: BoundingBox, outer: BoundingBox, r: Ray, tn: int, td: int)
    requires
        td > 0,
        in_box_at(inner, r, tn, td),
        outer.min.x <= inner.min.x,
        outer.min.y <= inner.min.y,
        outer.min.z <= inner.min.z,
        inner.max.x <= outer.max.x,
        inner.max.y <= outer.max.y,
        inner.max.z <= outer.max.z,
    ensures
        in_box_at(outer, r, tn, td),
{
    assert((outer.min.x - r.origin.x) * td <= (inner.min.x - r.origin.x) * td) by (nonlinear_arith)
        requires
            td > 0,
            outer.min.x <= inner.min.x,
    ;
    assert((outer.min.y - r.origin.y) * td <= (inner.min.y - r.origin.y) * td) by (nonlinear_arith)
        requires
            td > 0,
            outer.min.y <= inner.min.y,
    ;
    assert((outer.min.z - r.origin.z) * td <= (inner.min.z - r.origin.z) * td) by (nonlinear_arith)
        requires
            td > 0,
            outer.min.z <= inner.min.z,
    ;
    assert((inner.max.x - r.origin.x) * td <= (outer.max.x - r.origin.x) * td) by (nonlinear_arith)
        requires
            td > 0,
            inner.max.x <= outer.max.x,
    ;
    assert((inner.max.y - r.origin.y) * td <= (outer.max.y - r.origin.y) * td) by (nonlinear_arith)
        requires
            td > 0,
            inner.max.y <= outer.max.y,
    ;
    assert((inner.max.z - r.origin.z) * td <= (outer.max.z - r.origin.z) * td) by (nonlinear_arith)
        requires
            td > 0,
            inner.max.z <= outer.max.z,
    ;
}

// --- Laws of union. -----------------------------------------------------

/// The union of two boxes contains both.
pub proof fn lemma_union_contains(a: BoundingBox, b: BoundingBox)
    ensures
        box_le(a, union_spec(a, b)),
        box_le(b, union_spec(a, b)),
{
}

/// Union is commutative.
pub proof fn lemma_union_comm(a: BoundingBox, b: BoundingBox)
    ensures
        union_spec(a, b) == union_spec(b, a),
{
}

/// The empty box is the identity of union on well-formed boxes.
pub proof fn lemma_union_empty(a: BoundingBox)
    requires
        box_wf(a),
    ensures
        union_spec(empty_box(), a) == a,
        union_spec(a, empty_box()) == a,
{
}

/// Union is associative.
pub proof fn lemma_union_assoc(a: BoundingBox, b: BoundingBox, c: BoundingBox)
    ensures
        union_spec(union_spec(a, b), c) == union_spec(a, union_spec(b, c)),
{
}

impl BoundingBox {
    /// The empty box, the identity element of `union`.
    pub fn empty() -> (r: BoundingBox)
        ensures
            r == empty_box(),
    {
        BoundingBox {
            min: Point3 { x: EMPTY_COORD, y: EMPTY_COORD, z: EMPTY_COORD },
            max: Point3 { x: -EMPTY_COORD, y: -EMPTY_COORD, z: -EMPTY_COORD },
        }
    }

    /// The box spanning the given per-axis extents.
    pub fn axis_aligned(xmin: i64, xmax: i64, ymin: i64, ymax: i64, zmin: i64, zmax: i64) -> (r:
        BoundingBox)
        ensures
            r.min == (Point3 { x: xmin, y: ymin, z: zmin }),
            r.max == (Point3 { x: xmax, y: ymax, z: zmax }),
    {
        BoundingBox {
            min: Point3 { x: xmin, y: ymin, z: zmin },
            max: Point3 { x: xmax, y: ymax, z: zmax },
        }
    }

    /// Componentwise union.
    pub fn union(left: &BoundingBox, right: &BoundingBox) -> (r: BoundingBox)
        ensures
            r == union_spec(*left, *right),
    {
        BoundingBox {
            min: Point3 {
                x: if left.min.x <= right.min.x { left.min.x } else { right.min.x },
                y: if left.min.y <= right.min.y { left.min.y } else { right.min.y },
                z: if left.min.z <= right.min.z { left.min.z } else { right.min.z },
            },
            max: Point3 {
                x: if left.max.x >= right.max.x { left.max.x } else { right.max.x },
                y: if left.max.y >= right.max.y { left.max.y } else { right.max.y },
                z: if left.max.z >= right.max.z { left.max.z } else { right.max.z },
            },
        }
    }

    /// Grow this box to cover `other`.
    pub fn merge(&mut self, other: &BoundingBox)
        ensures
            *final(self) == union_spec(*old(self), *other),
    {
        *self = BoundingBox::union(self, other);
    }

    /// Grow this box to cover the point `p`.
    pub fn add_point(&mut self, p: Point3)
        ensures
            *final(self) == add_point_spec(*old(self), p),
    {
        let min = Point3 {
            x: if self.min.x <= p.x { self.min.x } else { p.x },
            y: if self.min.y <= p.y { self.min.y } else { p.y },
            z: if self.min.z <= p.z { self.min.z } else { p.z },
        };
        let max = Point3 {
            x: if self.max.x >= p.x { self.max.x } else { p.x },
            y: if self.max.y >= p.y { self.max.y } else { p.y },
            z: if self.max.z >= p.z { self.max.z } else { p.z },
        };
        *self = BoundingBox { min, max };
    }

    /// Midpoint of the two corners, truncating toward zero.
    pub fn centroid(&self) -> (r: Point3)
        requires
            box_wf(*self),
        ensures
            r.x == tdiv(self.min.x + self.max.x, 2),
            r.y == tdiv(self.min.y + self.max.y, 2),
            r.z == tdiv(self.min.z + self.max.z, 2),
            bounded_p(r, EMPTY_COORD as int),
    {
        proof {
            crate::fixed::lemma_tdiv_mag(self.min.x + self.max.x, 2, EMPTY_COORD as int);
            crate::fixed::lemma_tdiv_mag(self.min.y + self.max.y, 2, EMPTY_COORD as int);
            crate::fixed::lemma_tdiv_mag(self.min.z + self.max.z, 2, EMPTY_COORD as int);
        }
        Point3 {
            x: crate::fixed::div_trunc(self.min.x as i128 + self.max.x as i128, 2) as i64,
            y: crate::fixed::div_trunc(self.min.y as i128 + self.max.y as i128, 2) as i64,
            z: crate::fixed::div_trunc(self.min.z as i128 + self.max.z as i128, 2) as i64,
        }
    }

    /// The product of the three raw extents.
    pub fn volume(&self) -> (r: i128)
        requires
            box_wf(*self),
        ensures
            r == (self.max.x - self.min.x) * (self.max.y - self.min.y) * (self.max.z - self.min.z),
    {
        proof {
            crate::types::lemma_prod_bound(self.max.x - self.min.x, self.max.y - self.min.y,
                0x2000_0000);
            crate::types::lemma_prod_bound((self.max.x - self.min.x) * (self.max.y - self.min.y),
                self.max.z - self.min.z, 0x4000_0000_0000_0000);
        }
        (self.max.x as i128 - self.min.x as i128) * (self.max.y as i128 - self.min.y as i128) * (
        self.max.z as i128 - self.min.z as i128)
    }

    /// Twice the sum of the three raw face areas.
    pub fn surface_area(&self) -> (r: i128)
        requires
            box_wf(*self),
        ensures
            r == box_area(*self),
            -0x2000_0000_0000_0000 <= r <= 0x2000_0000_0000_0000,
    {
        proof {
            crate::types::lemma_prod_bound(self.max.x - self.min.x, self.max.y - self.min.y,
                0x2000_0000);
            crate::types::lemma_prod_bound(self.max.y - self.min.y, self.max.z - self.min.z,
                0x2000_0000);
            crate::types::lemma_prod_bound(self.max.z - self.min.z, self.max.x - self.min.x,
                0x2000_0000);
        }
        let dx = self.max.x as i128 - self.min.x as i128;
        let dy = self.max.y as i128 - self.min.y as i128;
        let dz = self.max.z as i128 - self.min.z as i128;
        2 * (dx * dy + dy * dz + dz * dx)
    }

    /// The slab test: does the ray meet this box at a positive parameter?
    pub fn intersects(&self, ray: &Ray) -> (r: bool)
        requires
            box_wf(*self),
            ray_wf(*ray),
        ensures
            r == slab_spec(*self, *ray),
    {
        let ox = ray.origin.x;
        let oy = ray.origin.y;
        let oz = ray.origin.z;
        let dx = ray.dir.x;
        let dy = ray.dir.y;
        let dz = ray.dir.z;
        if dx == 0 && !(self.min.x <= ox && ox <= self.max.x) {
            return false;
        }
        if dy == 0 && !(self.min.y <= oy && oy <= self.max.y) {
            return false;
        }
        if dz == 0 && !(self.min.z <= oz && oz <= self.max.z) {
            return false;
        }
        let (ax, lx, hx, nx): (bool, i64, i64, i64) = if dx > 0 {
            (true, self.min.x - ox, self.max.x - ox, dx)
        } else if dx < 0 {
            (true, ox - self.max.x, ox - self.min.x, -dx)
        } else {
            (false, 0, 1, 1)
        };
        let (ay, ly, hy, ny): (bool, i64, i64, i64) = if dy > 0 {
            (true, self.min.y - oy, self.max.y - oy, dy)
        } else if dy < 0 {
            (true, oy - self.max.y, oy - self.min.y, -dy)
        } else {
            (false, 0, 1, 1)
        };
        let (az, lz, hz, nz): (bool, i64, i64, i64) = if dz > 0 {
            (true, self.min.z - oz, self.max.z - oz, dz)
        } else if dz < 0 {
            (true, oz - self.max.z, oz - self.min.z, -dz)
        } else {
            (false, 0, 1, 1)
        };
        if ax && hx <= 0 {
            return false;
        }
        if ay && hy <= 0 {
            return false;
        }
        if az && hz <= 0 {
            return false;
        }
        proof {
            let m: int = 0x2000_0000;
            crate::types::lemma_prod_bound(lx as int, nx as int, m);
            crate::types::lemma_prod_bound(ly as int, ny as int, m);
            crate::types::lemma_prod_bound(lz as int, nz as int, m);
            crate::types::lemma_prod_bound(hx as int, nx as int, m);
            crate::types::lemma_prod_bound(hy as int, ny as int, m);
            crate::types::lemma_prod_bound(hz as int, nz as int, m);
            crate::types::lemma_prod_bound(lx as int, ny as int, m);
            crate::types::lemma_prod_bound(hy as int, nx as int, m);
            crate::types::lemma_prod_bound(ly as int, nx as int, m);
            crate::types::lemma_prod_bound(hx as int, ny as int, m);
            crate::types::lemma_prod_bound(lx as int, nz as int, m);
            crate::types::lemma_prod_bound(hz as int, nx as int, m);
            crate::types::lemma_prod_bound(lz as int, nx as int, m);
            crate::types::lemma_prod_bound(hx as int, nz as int, m);
            crate::types::lemma_prod_bound(ly as int, nz as int, m);
            crate::types::lemma_prod_bound(hz as int, ny as int, m);
            crate::types::lemma_prod_bound(lz as int, ny as int, m);
            crate::types::lemma_prod_bound(hy as int, nz as int, m);
        }
        if ax && lx as i128 * nx as i128 > hx as i128 * nx as i128 {
            return false;
        }
        if ay && ly as i128 * ny as i128 > hy as i128 * ny as i128 {
            return false;
        }
        if az && lz as i128 * nz as i128 > hz as i128 * nz as i128 {
            return false;
        }
        if ax && ay {
            if lx as i128 * ny as i128 > hy as i128 * nx as i128 {
                return false;
            }
            if ly as i128 * nx as i128 > hx as i128 * ny as i128 {
                return false;
            }
        }
        if ax && az {
            if lx as i128 * nz as i128 > hz as i128 * nx as i128 {
                return false;
            }
            if lz as i128 * nx as i128 > hx as i128 * nz as i128 {
                return false;
            }
        }
        if ay && az {
            if ly as i128 * nz as i128 > hz as i128 * ny as i128 {
                return false;
            }
            if lz as i128 * ny as i128 > hy as i128 * nz as i128 {
                return false;
            }
        }
        true
    }
}

} // verus!
