//! Rays: an origin point and a unit-length direction.

use vstd::prelude::*;

use crate::fixed::{tdiv, SCALE, COORD_LIMIT, DIST_LIMIT};
use crate::types::{Point3, Vector3, bounded_p, bounded_v, dot_raw, unit_of};

verus! {

#[derive(Clone, Copy, PartialEq, Eq, Structural, Debug)]
pub struct Ray {
    pub origin: Point3,
    pub dir: Vector3,
}

/// A well-formed ray: the origin lies inside the coordinate bound and the
/// direction is a normalization result — components within one unit
/// length, and the raw squared norm within two grid units of `SCALE` on
/// either side, so the direction is unit length up to the grid and never
/// the zero vector.
pub open spec fn ray_wf(r: Ray) -> bool {
    &&& bounded_p(r.origin, COORD_LIMIT as int)
    &&& bounded_v(r.dir, SCALE as int)
    &&& (SCALE - 2) * (SCALE - 2) <= dot_raw(r.dir, r.dir) <= (SCALE + 2) * (SCALE + 2)
}

/// The point reached after travelling `t` fixed-point units along the ray,
/// as an exact component triple.
pub open spec fn along_spec(r: Ray, t: int) -> (int, int, int) {
    (
        r.origin.x + tdiv(r.dir.x * t, SCALE as int),
        r.origin.y + tdiv(r.dir.y * t, SCALE as int),
        r.origin.z + tdiv(r.dir.z * t, SCALE as int),
    )
}

/// A constructed ray's direction is unit length within the grid's reach:
/// its raw squared norm lies within two grid units of `SCALE` on either
/// side, i.e. the direction's length is within `2 / SCALE` (about
/// `7.7e-6`, inside a `1e-5` tolerance) of one; the exact per-component
/// values are pinned by `Ray::new`'s contract.
pub proof fn lemma_ray_dir_near_unit(r: Ray)
    requires
        ray_wf(r),
    ensures
        (SCALE - 2) * (SCALE - 2) <= dot_raw(r.dir, r.dir) <= (SCALE + 2) * (SCALE + 2),
{
}

impl Ray {
    /// Build a ray, normalizing the direction.
    pub fn new(origin: Point3, dir: Vector3) -> (r: Ray)
        requires
            bounded_p(origin, COORD_LIMIT as int),
            bounded_v(dir, 0x40_0000_0000),
            dot_raw(dir, dir) >= 1,
        ensures
            r.origin == origin,
            r.dir.x == unit_of(dir).0,
            r.dir.y == unit_of(dir).1,
            r.dir.z == unit_of(dir).2,
            ray_wf(r),
    {
        let d = dir.normalize();
        proof {
            crate::types::lemma_unit_norm_grid(dir);
        }
        Ray { origin, dir: d }
    }

    /// The ray from `src` toward `dest` (which must differ from `src`).
    pub fn towards(src: Point3, dest: Point3) -> (r: Ray)
        requires
            bounded_p(src, COORD_LIMIT as int),
            bounded_p(dest, COORD_LIMIT as int),
            dest != src,
        ensures
            r.origin == src,
            ({
                let d = dest.minus_spec(src);
                r.dir.x == unit_of(d).0 && r.dir.y == unit_of(d).1 && r.dir.z == unit_of(d).2
            }),
            ray_wf(r),
    {
        let d = dest.minus(src);
        proof {
            assert(d.x != 0 || d.y != 0 || d.z != 0);
            assert(dot_raw(d, d) >= 1) by (nonlinear_arith)
                requires
                    d.x != 0 || d.y != 0 || d.z != 0,
            ;
        }
        Ray::new(src, d)
    }

    /// The point `t` fixed-point units along the ray.
    pub fn along(&self, t: i64) -> (r: Point3)
        requires
            ray_wf(*self),
            0 <= t <= DIST_LIMIT,
        ensures
            r.x == along_spec(*self, t as int).0,
            r.y == along_spec(*self, t as int).1,
            r.z == along_spec(*self, t as int).2,
            bounded_p(r, COORD_LIMIT + 0x1_0000_0000),
    {
        proof {
            assert(self.dir.x * t <= SCALE * t && -(SCALE * t) <= self.dir.x * t)
                by (nonlinear_arith)
                requires
                    -SCALE <= self.dir.x <= SCALE,
                    t >= 0,
                    SCALE == 262144,
            ;
            assert(self.dir.y * t <= SCALE * t && -(SCALE * t) <= self.dir.y * t)
                by (nonlinear_arith)
                requires
                    -SCALE <= self.dir.y <= SCALE,
                    t >= 0,
                    SCALE == 262144,
            ;
            assert(self.dir.z * t <= SCALE * t && -(SCALE * t) <= self.dir.z * t)
                by (nonlinear_arith)
                requires
                    -SCALE <= self.dir.z <= SCALE,
                    t >= 0,
                    SCALE == 262144,
            ;
            crate::fixed::lemma_tdiv_mag(self.dir.x * t, SCALE as int, 0x1_0000_0000);
            crate::fixed::lemma_tdiv_mag(self.dir.y * t, SCALE as int, 0x1_0000_0000);
            crate::fixed::lemma_tdiv_mag(self.dir.z * t, SCALE as int, 0x1_0000_0000);
        }
        let fx = crate::fixed::scale_down(self.dir.x as i128 * t as i128);
        let fy = crate::fixed::scale_down(self.dir.y as i128 * t as i128);
        let fz = crate::fixed::scale_down(self.dir.z as i128 * t as i128);
        Point3 { x: self.origin.x + fx, y: self.origin.y + fy, z: self.origin.z + fz }
    }
}

} // verus!
