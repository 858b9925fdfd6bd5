//! The pinhole camera: a precomputed rotation applied to a view-space
//! direction.
//!
//! The rotation matrix and focal length come from the scene description
//! (their construction is trigonometric and happens outside the verified
//! core); applying them to pixel coordinates is plain fixed-point algebra
//! and is pinned down here.

use vstd::prelude::*;

use crate::fixed::{tdiv, SCALE, COORD_LIMIT};
use crate::ray::{Ray, ray_wf};
use crate::types::{Mat3, Point3, Vector3, bounded_p, bounded_v, dot_raw, unit_of};

verus! {

#[derive(Clone, Copy, Debug)]
pub struct Camera {
    pub origin: Point3,
    pub rotation: Mat3,
    pub z: i64,
}

/// Origin in range, rotation entries of unit order, focal length positive.
pub open spec fn camera_wf(c: Camera) -> bool {
    &&& bounded_p(c.origin, COORD_LIMIT as int)
    &&& bounded_v(c.rotation.r0, 2 * SCALE)
    &&& bounded_v(c.rotation.r1, 2 * SCALE)
    &&& bounded_v(c.rotation.r2, 2 * SCALE)
    &&& 1 <= c.z <= 0x1_0000_0000
}

/// The rotated (pre-normalization) view direction for pixel coordinates
/// `(x, y)`; a degenerate rotation yields the +z unit axis instead of a
/// zero direction.
pub open spec fn view_dir(c: Camera, x: int, y: int) -> Vector3 {
    let v = Vector3 {
        x: tdiv(c.rotation.r0.x * x + c.rotation.r0.y * y + c.rotation.r0.z * c.z,
            SCALE as int) as i64,
        y: tdiv(c.rotation.r1.x * x + c.rotation.r1.y * y + c.rotation.r1.z * c.z,
            SCALE as int) as i64,
        z: tdiv(c.rotation.r2.x * x + c.rotation.r2.y * y + c.rotation.r2.z * c.z,
            SCALE as int) as i64,
    };
    if v.x == 0 && v.y == 0 && v.z == 0 {
        Vector3 { x: 0, y: 0, z: SCALE }
    } else {
        v
    }
}

impl Camera {
    /// Assemble a camera from its precomputed parts.
    pub fn new(origin: Point3, rotation: Mat3, z: i64) -> (r: Camera)
        ensures
            r == (Camera { origin, rotation, z }),
    {
        Camera { origin, rotation, z }
    }

    /// The primary ray through normalized pixel coordinates `(x, y)`:
    /// rotate the view-space direction and normalize.
    pub fn get_ray(&self, x: i64, y: i64) -> (r: Ray)
        requires
            camera_wf(*self),
            -0x1_0000_0000 <= x <= 0x1_0000_0000,
            -0x1_0000_0000 <= y <= 0x1_0000_0000,
        ensures
            r.origin == self.origin,
            ray_wf(r),
            r.dir.x == unit_of(view_dir(*self, x as int, y as int)).0,
            r.dir.y == unit_of(view_dir(*self, x as int, y as int)).1,
            r.dir.z == unit_of(view_dir(*self, x as int, y as int)).2,
    {
        let v = self.rotation.mul_vec(Vector3 { x, y, z: self.z });
        let dir = if v.x == 0 && v.y == 0 && v.z == 0 {
            Vector3 { x: 0, y: 0, z: SCALE }
        } else {
            v
        };
        proof {
            crate::types::lemma_prod_bound2(self.rotation.r0.x as int, x as int, 0x8_0000,
                0x1_0000_0000);
            crate::types::lemma_prod_bound2(self.rotation.r0.y as int, y as int, 0x8_0000,
                0x1_0000_0000);
            crate::types::lemma_prod_bound2(self.rotation.r0.z as int, self.z as int, 0x8_0000,
                0x1_0000_0000);
            crate::types::lemma_prod_bound2(self.rotation.r1.x as int, x as int, 0x8_0000,
                0x1_0000_0000);
            crate::types::lemma_prod_bound2(self.rotation.r1.y as int, y as int, 0x8_0000,
                0x1_0000_0000);
            crate::types::lemma_prod_bound2(self.rotation.r1.z as int, self.z as int, 0x8_0000,
                0x1_0000_0000);
            crate::types::lemma_prod_bound2(self.rotation.r2.x as int, x as int, 0x8_0000,
                0x1_0000_0000);
            crate::types::lemma_prod_bound2(self.rotation.r2.y as int, y as int, 0x8_0000,
                0x1_0000_0000);
            crate::types::lemma_prod_bound2(self.rotation.r2.z as int, self.z as int, 0x8_0000,
                0x1_0000_0000);
            crate::fixed::lemma_tdiv_mag(dot_raw(self.rotation.r0, Vector3 { x, y, z: self.z }),
                SCALE as int, 0x10_0000_0000);
            crate::fixed::lemma_tdiv_mag(dot_raw(self.rotation.r1, Vector3 { x, y, z: self.z }),
                SCALE as int, 0x10_0000_0000);
            crate::fixed::lemma_tdiv_mag(dot_raw(self.rotation.r2, Vector3 { x, y, z: self.z }),
                SCALE as int, 0x10_0000_0000);
            assert(dot_raw(dir, dir) >= 1) by (nonlinear_arith)
                requires
                    dir.x != 0 || dir.y != 0 || dir.z != 0,
            ;
        }
        Ray::new(self.origin, dir)
    }
}

} // verus!
