//! Geometric primitives: spheres and triangles.
//!
//! Each primitive answers two questions: a tight axis-aligned bounding box,
//! and an exact ray test. All quantities a test branches on — the sphere's
//! discriminant, the triangle's determinant and barycentric numerators —
//! are exact integer products, so the miss conditions in the contracts are
//! exact; only the reported distance and the interpolated normal round,
//! and they round precisely as their specification mirrors say.

use vstd::prelude::*;

use crate::bounds::{BoundingBox, in_box_at};
use crate::fixed::{imin, imax, isqrt, isqrt_spec, tdiv, SCALE, EPSILON, COORD_LIMIT, DIST_LIMIT};
use crate::ray::{Ray, ray_wf, along_spec};
use crate::texture::TextureCoords;
use crate::types::{Point3, Vector3, bounded_p, bounded_v, dot_raw, dot3, cross3, vt, unit_of,
    lemma_prod_bound, lemma_prod_bound2};

verus! {

/// A surface hit: where, how far, and the interpolated shading data.
#[derive(Clone, Copy, PartialEq, Eq, Structural, Debug)]
pub struct Intersection {
    pub distance: i64,
    pub position: Point3,
    pub incident: Vector3,
    pub normal: Vector3,
    pub texture_coords: TextureCoords,
}

// --- Sphere. ------------------------------------------------------------

#[derive(Clone, Copy, PartialEq, Eq, Structural, Debug)]
pub struct Sphere {
    pub center: Point3,
    pub radius: i64,
}

/// Center in range, radius positive and in range.
pub open spec fn sphere_wf(s: Sphere) -> bool {
    bounded_p(s.center, COORD_LIMIT as int) && 1 <= s.radius <= COORD_LIMIT
}

/// Origin-to-center offset.
pub open spec fn sph_u(s: Sphere, r: Ray) -> (int, int, int) {
    (r.origin.x - s.center.x, r.origin.y - s.center.y, r.origin.z - s.center.z)
}

/// The raw squared length of the direction.
pub open spec fn ray_a(r: Ray) -> int {
    dot_raw(r.dir, r.dir)
}

/// Half the raw linear coefficient of the sphere quadratic.
pub open spec fn sph_h(s: Sphere, r: Ray) -> int {
    dot3(sph_u(s, r), vt(r.dir))
}

/// The raw constant coefficient: squared center distance less squared
/// radius.
pub open spec fn sph_c(s: Sphere, r: Ray) -> int {
    dot3(sph_u(s, r), sph_u(s, r)) - s.radius * s.radius
}

/// The discriminant; negative exactly when the line misses the sphere.
pub open spec fn sph_dis(s: Sphere, r: Ray) -> int {
    sph_h(s, r) * sph_h(s, r) - ray_a(r) * sph_c(s, r)
}

/// The fixed-point distance to the nearer root.
pub open spec fn sph_near(s: Sphere, r: Ray) -> int {
    tdiv((-sph_h(s, r) - isqrt_spec(sph_dis(s, r))) * SCALE, ray_a(r))
}

/// The fixed-point distance to the farther root.
pub open spec fn sph_far(s: Sphere, r: Ray) -> int {
    tdiv((-sph_h(s, r) + isqrt_spec(sph_dis(s, r))) * SCALE, ray_a(r))
}

/// The reported distance: the smaller positive root past the
/// self-intersection threshold — the nearer one, or, when that lies
/// behind the origin or within the threshold (a ray leaving from inside
/// the sphere), the farther one.
pub open spec fn sph_dist(s: Sphere, r: Ray) -> int {
    if sph_near(s, r) > EPSILON {
        sph_near(s, r)
    } else {
        sph_far(s, r)
    }
}

/// The sphere reports a hit: real roots, and the reported root past the
/// self-intersection threshold yet within range.
pub open spec fn sphere_hit(s: Sphere, r: Ray) -> bool {
    &&& sph_dis(s, r) >= 0
    &&& EPSILON < sph_dist(s, r) <= DIST_LIMIT
}

/// The hit record the sphere reports.
pub open spec fn sphere_intersection(s: Sphere, r: Ray) -> Intersection {
    let d = sph_dist(s, r);
    let p = along_spec(r, d);
    let nv = Vector3 {
        x: (p.0 - s.center.x) as i64,
        y: (p.1 - s.center.y) as i64,
        z: (p.2 - s.center.z) as i64,
    };
    let n = unit_of(nv);
    Intersection {
        distance: d as i64,
        position: Point3 { x: p.0 as i64, y: p.1 as i64, z: p.2 as i64 },
        incident: r.dir,
        normal: Vector3 { x: n.0 as i64, y: n.1 as i64, z: n.2 as i64 },
        texture_coords: TextureCoords { x: 0, y: 0 },
    }
}

/// The sphere's whole ray-test verdict.
pub open spec fn sphere_intersect_spec(s: Sphere, r: Ray) -> Option<Intersection> {
    if sphere_hit(s, r) {
        Some(sphere_intersection(s, r))
    } else {
        None
    }
}

/// The tight box around the sphere.
pub open spec fn sphere_box(s: Sphere) -> BoundingBox {
    BoundingBox {
        min: Point3 {
            x: (s.center.x - s.radius) as i64,
            y: (s.center.y - s.radius) as i64,
            z: (s.center.z - s.radius) as i64,
        },
        max: Point3 {
            x: (s.center.x + s.radius) as i64,
            y: (s.center.y + s.radius) as i64,
            z: (s.center.z + s.radius) as i64,
        },
    }
}

impl Sphere {
    pub fn new(center: Point3, radius: i64) -> (r: Sphere)
        ensures
            r == (Sphere { center, radius }),
    {
        Sphere { center, radius }
    }

    /// The tight axis-aligned box around this sphere.
    pub fn bounding_box(&self) -> (r: BoundingBox)
        requires
            sphere_wf(*self),
        ensures
            r == sphere_box(*self),
    {
        BoundingBox::axis_aligned(self.center.x - self.radius, self.center.x + self.radius,
            self.center.y - self.radius, self.center.y + self.radius, self.center.z - self.radius,
            self.center.z + self.radius)
    }

    /// Solve the ray/sphere quadratic: a negative discriminant is a miss;
    /// the nearer root is reported when it lies past the self-intersection
    /// threshold, else the farther one (a ray leaving from inside the
    /// sphere), within range either way.
    pub fn intersect(&self, ray: &Ray) -> (r: Option<Intersection>)
        requires
            sphere_wf(*self),
            ray_wf(*ray),
        ensures
            r == sphere_intersect_spec(*self, *ray),
    {
        let ux = ray.origin.x - self.center.x;
        let uy = ray.origin.y - self.center.y;
        let uz = ray.origin.z - self.center.z;
        let dx = ray.dir.x;
        let dy = ray.dir.y;
        let dz = ray.dir.z;
        proof {
            lemma_prod_bound2(ux as int, dx as int, 0x800_0000, 0x8_0000);
            lemma_prod_bound2(uy as int, dy as int, 0x800_0000, 0x8_0000);
            lemma_prod_bound2(uz as int, dz as int, 0x800_0000, 0x8_0000);
            lemma_prod_bound(ux as int, ux as int, 0x800_0000);
            lemma_prod_bound(uy as int, uy as int, 0x800_0000);
            lemma_prod_bound(uz as int, uz as int, 0x800_0000);
            lemma_prod_bound(dx as int, dx as int, 0x8_0000);
            lemma_prod_bound(dy as int, dy as int, 0x8_0000);
            lemma_prod_bound(dz as int, dz as int, 0x8_0000);
            lemma_prod_bound(self.radius as int, self.radius as int, 0x400_0000);
        }
        let a = dx as i128 * dx as i128 + dy as i128 * dy as i128 + dz as i128 * dz as i128;
        let h = ux as i128 * dx as i128 + uy as i128 * dy as i128 + uz as i128 * dz as i128;
        let uu = ux as i128 * ux as i128 + uy as i128 * uy as i128 + uz as i128 * uz as i128;
        let cc = uu - self.radius as i128 * self.radius as i128;
        proof {
            lemma_prod_bound(h as int, h as int, 0x4_0000_0000_0000);
            lemma_prod_bound2(a as int, cc as int, 0x100_0000_0000, 0x100_0000_0000_0000);
        }
        let dis = h * h - a * cc;
        if dis < 0 {
            return None;
        }
        let sq = isqrt(dis as u128) as i128;
        proof {
            crate::fixed::lemma_isqrt_bounds(dis as int);
            crate::types::lemma_isqrt_result_bound(dis as int, 0x8_0000_0000_0000);
            lemma_prod_bound2(-(h as int) - sq as int, SCALE as int, 0x10_0000_0000_0000,
                0x4_0000);
        }
        let near = crate::fixed::div_trunc((-h - sq) * SCALE as i128, a);
        let dist = if near > EPSILON as i128 {
            near
        } else {
            crate::fixed::div_trunc((-h + sq) * SCALE as i128, a)
        };
        if dist <= EPSILON as i128 || dist > DIST_LIMIT as i128 {
            return None;
        }
        let d64 = dist as i64;
        let position = ray.along(d64);
        let normal = position.minus(self.center).normalize();
        Some(Intersection {
            distance: d64,
            position,
            incident: ray.dir,
            normal,
            texture_coords: TextureCoords::new(0, 0),
        })
    }
}

// --- Triangle. ----------------------------------------------------------

#[derive(Clone, Copy, Debug)]
pub struct Triangle {
    pub vertex: Point3,
    pub edge1: Vector3,
    pub edge2: Vector3,
    pub normals: (Vector3, Vector3, Vector3),
    pub texture_coords: (TextureCoords, TextureCoords, TextureCoords),
    /// Set when the normals were defaulted to the geometric normal: the
    /// reported normal is then oriented by the determinant's sign at each
    /// intersection, so it always faces the incoming ray.
    pub orient_by_det: bool,
}

/// Bounded texture coordinates.
pub open spec fn tc_bounded(c: TextureCoords, b: int) -> bool {
    -b <= c.x <= b && -b <= c.y <= b
}

/// All three vertices in coordinate range; per-vertex shading data bounded.
pub open spec fn tri_wf(t: Triangle) -> bool {
    &&& bounded_p(t.vertex, COORD_LIMIT as int)
    &&& -COORD_LIMIT <= t.vertex.x + t.edge1.x <= COORD_LIMIT
    &&& -COORD_LIMIT <= t.vertex.y + t.edge1.y <= COORD_LIMIT
    &&& -COORD_LIMIT <= t.vertex.z + t.edge1.z <= COORD_LIMIT
    &&& -COORD_LIMIT <= t.vertex.x + t.edge2.x <= COORD_LIMIT
    &&& -COORD_LIMIT <= t.vertex.y + t.edge2.y <= COORD_LIMIT
    &&& -COORD_LIMIT <= t.vertex.z + t.edge2.z <= COORD_LIMIT
    &&& bounded_v(t.normals.0, 0x10_0000)
    &&& bounded_v(t.normals.1, 0x10_0000)
    &&& bounded_v(t.normals.2, 0x10_0000)
    &&& tc_bounded(t.texture_coords.0, 0x1000_0000)
    &&& tc_bounded(t.texture_coords.1, 0x1000_0000)
    &&& tc_bounded(t.texture_coords.2, 0x1000_0000)
}

/// Second vertex.
pub open spec fn tri_v1(t: Triangle) -> (int, int, int) {
    (t.vertex.x + t.edge1.x, t.vertex.y + t.edge1.y, t.vertex.z + t.edge1.z)
}

/// Third vertex.
pub open spec fn tri_v2(t: Triangle) -> (int, int, int) {
    (t.vertex.x + t.edge2.x, t.vertex.y + t.edge2.y, t.vertex.z + t.edge2.z)
}

/// The Moeller-Trumbore auxiliary cross product `dir x edge2`.
pub open spec fn tri_pvec(t: Triangle, r: Ray) -> (int, int, int) {
    cross3(vt(r.dir), vt(t.edge2))
}

/// The determinant of the barycentric linear system.
pub open spec fn tri_det(t: Triangle, r: Ray) -> int {
    dot3(vt(t.edge1), tri_pvec(t, r))
}

/// Sign of the determinant.
pub open spec fn tri_sign(t: Triangle, r: Ray) -> int {
    if tri_det(t, r) > 0 {
        1
    } else {
        -1
    }
}

/// Origin offset from the first vertex.
pub open spec fn tri_tvec(t: Triangle, r: Ray) -> (int, int, int) {
    (r.origin.x - t.vertex.x, r.origin.y - t.vertex.y, r.origin.z - t.vertex.z)
}

/// Numerator of the `u` barycentric coordinate (times the determinant).
pub open spec fn tri_uraw(t: Triangle, r: Ray) -> int {
    dot3(tri_tvec(t, r), tri_pvec(t, r))
}

/// The second auxiliary cross product `tvec x edge1`.
pub open spec fn tri_qvec(t: Triangle, r: Ray) -> (int, int, int) {
    cross3(tri_tvec(t, r), vt(t.edge1))
}

/// Numerator of the `v` barycentric coordinate (times the determinant).
pub open spec fn tri_vraw(t: Triangle, r: Ray) -> int {
    dot3(vt(r.dir), tri_qvec(t, r))
}

/// Numerator of the hit parameter (times the determinant).
pub open spec fn tri_traw(t: Triangle, r: Ray) -> int {
    dot3(vt(t.edge2), tri_qvec(t, r))
}

/// Determinant magnitude: the common positive denominator.
pub open spec fn tri_adet(t: Triangle, r: Ray) -> int {
    tri_sign(t, r) * tri_det(t, r)
}

/// Sign-corrected `u` numerator.
pub open spec fn tri_su(t: Triangle, r: Ray) -> int {
    tri_sign(t, r) * tri_uraw(t, r)
}

/// Sign-corrected `v` numerator.
pub open spec fn tri_sv(t: Triangle, r: Ray) -> int {
    tri_sign(t, r) * tri_vraw(t, r)
}

/// Sign-corrected distance numerator.
pub open spec fn tri_st(t: Triangle, r: Ray) -> int {
    tri_sign(t, r) * tri_traw(t, r)
}

/// The reported fixed-point hit distance.
pub open spec fn tri_dist(t: Triangle, r: Ray) -> int {
    tdiv(tri_st(t, r) * SCALE, tri_adet(t, r))
}

/// The triangle reports a hit: the ray is not parallel to the plane, the
/// barycentric coordinates lie in the triangle, and the distance is past
/// the self-intersection threshold yet within range.
pub open spec fn tri_hit(t: Triangle, r: Ray) -> bool {
    &&& tri_det(t, r) != 0
    &&& 0 <= tri_su(t, r) <= tri_adet(t, r)
    &&& 0 <= tri_sv(t, r)
    &&& tri_su(t, r) + tri_sv(t, r) <= tri_adet(t, r)
    &&& EPSILON < tri_dist(t, r) <= DIST_LIMIT
}

/// The fixed-point `u` barycentric weight.
pub open spec fn tri_u(t: Triangle, r: Ray) -> int {
    tdiv(tri_su(t, r) * SCALE, tri_adet(t, r))
}

/// The fixed-point `v` barycentric weight.
pub open spec fn tri_v(t: Triangle, r: Ray) -> int {
    tdiv(tri_sv(t, r) * SCALE, tri_adet(t, r))
}

/// The fixed-point `w` barycentric weight, `1 - u - v`.
pub open spec fn tri_w(t: Triangle, r: Ray) -> int {
    SCALE - tri_u(t, r) - tri_v(t, r)
}

/// Barycentric interpolation of one scalar channel, in fixed point.
pub open spec fn tri_lerp(w: int, a0: int, u: int, a1: int, v: int, a2: int) -> int {
    tdiv(w * a0 + u * a1 + v * a2, SCALE as int)
}

/// The hit record the triangle reports.
pub open spec fn tri_intersection(t: Triangle, r: Ray) -> Intersection {
    let w = tri_w(t, r);
    let u = tri_u(t, r);
    let v = tri_v(t, r);
    let d = tri_dist(t, r);
    let p = along_spec(r, d);
    let nv = Vector3 {
        x: tri_lerp(w, t.normals.0.x as int, u, t.normals.1.x as int, v,
            t.normals.2.x as int) as i64,
        y: tri_lerp(w, t.normals.0.y as int, u, t.normals.1.y as int, v,
            t.normals.2.y as int) as i64,
        z: tri_lerp(w, t.normals.0.z as int, u, t.normals.1.z as int, v,
            t.normals.2.z as int) as i64,
    };
    let n = unit_of(nv);
    let nrm = Vector3 { x: n.0 as i64, y: n.1 as i64, z: n.2 as i64 };
    let oriented = if t.orient_by_det && tri_det(t, r) < 0 {
        Vector3 { x: (-nrm.x) as i64, y: (-nrm.y) as i64, z: (-nrm.z) as i64 }
    } else {
        nrm
    };
    Intersection {
        distance: d as i64,
        position: Point3 { x: p.0 as i64, y: p.1 as i64, z: p.2 as i64 },
        incident: r.dir,
        normal: oriented,
        texture_coords: TextureCoords {
            x: tri_lerp(w, t.texture_coords.0.x as int, u, t.texture_coords.1.x as int, v,
                t.texture_coords.2.x as int) as i64,
            y: tri_lerp(w, t.texture_coords.0.y as int, u, t.texture_coords.1.y as int, v,
                t.texture_coords.2.y as int) as i64,
        },
    }
}

/// The triangle's whole ray-test verdict.
pub open spec fn triangle_intersect_spec(t: Triangle, r: Ray) -> Option<Intersection> {
    if tri_hit(t, r) {
        Some(tri_intersection(t, r))
    } else {
        None
    }
}

/// The normalized geometric normal of a triangle with the given edges:
/// the fixed-point cross product, rescaled to unit length.
pub open spec fn geometric_normal(e1: Vector3, e2: Vector3) -> Vector3 {
    let c = Vector3 {
        x: tdiv(crate::types::cross_raw(e1, e2).0, SCALE as int) as i64,
        y: tdiv(crate::types::cross_raw(e1, e2).1, SCALE as int) as i64,
        z: tdiv(crate::types::cross_raw(e1, e2).2, SCALE as int) as i64,
    };
    Vector3 { x: unit_of(c).0 as i64, y: unit_of(c).1 as i64, z: unit_of(c).2 as i64 }
}

/// The tight box around the triangle: componentwise extremes of the three
/// vertices.
pub open spec fn triangle_box(t: Triangle) -> BoundingBox {
    BoundingBox {
        min: Point3 {
            x: imin(imin(t.vertex.x as int, tri_v1(t).0), tri_v2(t).0) as i64,
            y: imin(imin(t.vertex.y as int, tri_v1(t).1), tri_v2(t).1) as i64,
            z: imin(imin(t.vertex.z as int, tri_v1(t).2), tri_v2(t).2) as i64,
        },
        max: Point3 {
            x: imax(imax(t.vertex.x as int, tri_v1(t).0), tri_v2(t).0) as i64,
            y: imax(imax(t.vertex.y as int, tri_v1(t).1), tri_v2(t).1) as i64,
            z: imax(imax(t.vertex.z as int, tri_v1(t).2), tri_v2(t).2) as i64,
        },
    }
}

impl Triangle {
    /// Build a triangle from three vertices; per-vertex normals default to
    /// the (normalized) geometric normal and texture coordinates to zero.
    pub fn new(v0: Point3, v1: Point3, v2: Point3, normals: Option<(Vector3, Vector3, Vector3)>,
        texture_coords: Option<(TextureCoords, TextureCoords, TextureCoords)>) -> (r: Triangle)
        requires
            bounded_p(v0, COORD_LIMIT as int),
            bounded_p(v1, COORD_LIMIT as int),
            bounded_p(v2, COORD_LIMIT as int),
            normals matches Some(ns) ==> bounded_v(ns.0, 0x10_0000) && bounded_v(ns.1, 0x10_0000)
                && bounded_v(ns.2, 0x10_0000),
            texture_coords matches Some(ts) ==> tc_bounded(ts.0, 0x1000_0000) && tc_bounded(ts.1,
                0x1000_0000) && tc_bounded(ts.2, 0x1000_0000),
        ensures
            tri_wf(r),
            r.vertex == v0,
            r.edge1 == v1.minus_spec(v0),
            r.edge2 == v2.minus_spec(v0),
            normals matches Some(ns) ==> r.normals == ns,
            normals is None ==> r.normals == (geometric_normal(v1.minus_spec(v0), v2.minus_spec(
                v0)), geometric_normal(v1.minus_spec(v0), v2.minus_spec(v0)), geometric_normal(
                v1.minus_spec(v0), v2.minus_spec(v0))),
            r.orient_by_det == (normals is None),
            texture_coords matches Some(ts) ==> r.texture_coords == ts,
            texture_coords is None ==> r.texture_coords == (TextureCoords { x: 0, y: 0 },
                TextureCoords { x: 0, y: 0 }, TextureCoords { x: 0, y: 0 }),
    {
        let e1 = v1.minus(v0);
        let e2 = v2.minus(v0);
        let ns: (Vector3, Vector3, Vector3) = match normals {
            Some(ns) => ns,
            None => {
                proof {
                    lemma_prod_bound(e1.x as int, e2.x as int, 0x800_0000);
                    lemma_prod_bound(e1.y as int, e2.y as int, 0x800_0000);
                    lemma_prod_bound(e1.z as int, e2.z as int, 0x800_0000);
                    lemma_prod_bound(e1.y as int, e2.z as int, 0x800_0000);
                    lemma_prod_bound(e1.z as int, e2.y as int, 0x800_0000);
                    lemma_prod_bound(e1.z as int, e2.x as int, 0x800_0000);
                    lemma_prod_bound(e1.x as int, e2.z as int, 0x800_0000);
                    lemma_prod_bound(e1.x as int, e2.y as int, 0x800_0000);
                    lemma_prod_bound(e1.y as int, e2.x as int, 0x800_0000);
                }
                let n = e1.cross(e2).normalize();
                (n, n, n)
            },
        };
        let ts: (TextureCoords, TextureCoords, TextureCoords) = match texture_coords {
            Some(ts) => ts,
            None => (TextureCoords::new(0, 0), TextureCoords::new(0, 0), TextureCoords::new(0, 0)),
        };
        let orient = match normals {
            Some(_) => false,
            None => true,
        };
        Triangle {
            vertex: v0,
            edge1: e1,
            edge2: e2,
            normals: ns,
            texture_coords: ts,
            orient_by_det: orient,
        }
    }

    /// The tight axis-aligned box around the three vertices.
    pub fn bounding_box(&self) -> (r: BoundingBox)
        requires
            tri_wf(*self),
        ensures
            r == triangle_box(*self),
    {
        let v0 = self.vertex;
        let x1 = self.vertex.x + self.edge1.x;
        let y1 = self.vertex.y + self.edge1.y;
        let z1 = self.vertex.z + self.edge1.z;
        let x2 = self.vertex.x + self.edge2.x;
        let y2 = self.vertex.y + self.edge2.y;
        let z2 = self.vertex.z + self.edge2.z;
        let xmin = min3(v0.x, x1, x2);
        let ymin = min3(v0.y, y1, y2);
        let zmin = min3(v0.z, z1, z2);
        let xmax = max3(v0.x, x1, x2);
        let ymax = max3(v0.y, y1, y2);
        let zmax = max3(v0.z, z1, z2);
        BoundingBox::axis_aligned(xmin, xmax, ymin, ymax, zmin, zmax)
    }

    /// The Moeller-Trumbore ray test, carried out in exact integers: all
    /// rejection tests compare raw products, and only the reported
    /// distance, weights and interpolants are rounded.
    pub fn intersect(&self, ray: &Ray) -> (r: Option<Intersection>)
        requires
            tri_wf(*self),
            ray_wf(*ray),
        ensures
            r == triangle_intersect_spec(*self, *ray),
    {
        let t = *self;
        let dx = ray.dir.x as i128;
        let dy = ray.dir.y as i128;
        let dz = ray.dir.z as i128;
        let e1x = t.edge1.x as i128;
        let e1y = t.edge1.y as i128;
        let e1z = t.edge1.z as i128;
        let e2x = t.edge2.x as i128;
        let e2y = t.edge2.y as i128;
        let e2z = t.edge2.z as i128;
        proof {
            lemma_prod_bound2(dy as int, e2z as int, 0x8_0000, 0x800_0000);
            lemma_prod_bound2(dz as int, e2y as int, 0x8_0000, 0x800_0000);
            lemma_prod_bound2(dz as int, e2x as int, 0x8_0000, 0x800_0000);
            lemma_prod_bound2(dx as int, e2z as int, 0x8_0000, 0x800_0000);
            lemma_prod_bound2(dx as int, e2y as int, 0x8_0000, 0x800_0000);
            lemma_prod_bound2(dy as int, e2x as int, 0x8_0000, 0x800_0000);
        }
        let px = dy * e2z - dz * e2y;
        let py = dz * e2x - dx * e2z;
        let pz = dx * e2y - dy * e2x;
        proof {
            lemma_prod_bound2(e1x as int, px as int, 0x800_0000, 0x1_0000_0000_0000);
            lemma_prod_bound2(e1y as int, py as int, 0x800_0000, 0x1_0000_0000_0000);
            lemma_prod_bound2(e1z as int, pz as int, 0x800_0000, 0x1_0000_0000_0000);
        }
        let det = e1x * px + e1y * py + e1z * pz;
        if det == 0 {
            return None;
        }
        let s: i128 = if det > 0 { 1 } else { -1 };
        proof {
            lemma_sign_flip(s as int, det as int);
        }
        let adet = s * det;
        let tx = (ray.origin.x - t.vertex.x) as i128;
        let ty = (ray.origin.y - t.vertex.y) as i128;
        let tz = (ray.origin.z - t.vertex.z) as i128;
        proof {
            lemma_prod_bound2(tx as int, px as int, 0x800_0000, 0x1_0000_0000_0000);
            lemma_prod_bound2(ty as int, py as int, 0x800_0000, 0x1_0000_0000_0000);
            lemma_prod_bound2(tz as int, pz as int, 0x800_0000, 0x1_0000_0000_0000);
        }
        let uraw = tx * px + ty * py + tz * pz;
        proof {
            lemma_sign_flip(s as int, uraw as int);
        }
        let su = s * uraw;
        if su < 0 || su > adet {
            return None;
        }
        proof {
            lemma_prod_bound2(ty as int, e1z as int, 0x800_0000, 0x800_0000);
            lemma_prod_bound2(tz as int, e1y as int, 0x800_0000, 0x800_0000);
            lemma_prod_bound2(tz as int, e1x as int, 0x800_0000, 0x800_0000);
            lemma_prod_bound2(tx as int, e1z as int, 0x800_0000, 0x800_0000);
            lemma_prod_bound2(tx as int, e1y as int, 0x800_0000, 0x800_0000);
            lemma_prod_bound2(ty as int, e1x as int, 0x800_0000, 0x800_0000);
        }
        let qx = ty * e1z - tz * e1y;
        let qy = tz * e1x - tx * e1z;
        let qz = tx * e1y - ty * e1x;
        proof {
            lemma_prod_bound2(dx as int, qx as int, 0x8_0000, 0x100_0000_0000_0000);
            lemma_prod_bound2(dy as int, qy as int, 0x8_0000, 0x100_0000_0000_0000);
            lemma_prod_bound2(dz as int, qz as int, 0x8_0000, 0x100_0000_0000_0000);
        }
        let vraw = dx * qx + dy * qy + dz * qz;
        proof {
            lemma_sign_flip(s as int, vraw as int);
        }
        let sv = s * vraw;
        if sv < 0 || su + sv > adet {
            return None;
        }
        proof {
            lemma_prod_bound2(e2x as int, qx as int, 0x800_0000, 0x100_0000_0000_0000);
            lemma_prod_bound2(e2y as int, qy as int, 0x800_0000, 0x100_0000_0000_0000);
            lemma_prod_bound2(e2z as int, qz as int, 0x800_0000, 0x100_0000_0000_0000);
        }
        let traw = e2x * qx + e2y * qy + e2z * qz;
        proof {
            lemma_sign_flip(s as int, traw as int);
        }
        let st = s * traw;
        proof {
            lemma_prod_bound2(st as int, SCALE as int, 0x1000_0000_0000_0000_0000_0000, 0x4_0000);
            lemma_prod_bound2(su as int, SCALE as int, 0x1000_0000_0000_0000_0000_0000, 0x4_0000);
            lemma_prod_bound2(sv as int, SCALE as int, 0x1000_0000_0000_0000_0000_0000, 0x4_0000);
        }
        let dist = crate::fixed::div_trunc(st * SCALE as i128, adet);
        if dist <= EPSILON as i128 || dist > DIST_LIMIT as i128 {
            return None;
        }
        let d64 = dist as i64;
        proof {
            assert(su * (SCALE as int) <= adet * (SCALE as int) && 0 <= su * (SCALE as int) && sv
                * (SCALE as int) <= adet * (SCALE as int) && 0 <= sv * (SCALE as int))
                by (nonlinear_arith)
                requires
                    0 <= su <= adet,
                    0 <= sv <= adet,
                    SCALE == 262144,
            ;
            crate::fixed::lemma_tdiv_mag((su * SCALE as i128) as int, adet as int, SCALE as int);
            crate::fixed::lemma_tdiv_mag((sv * SCALE as i128) as int, adet as int, SCALE as int);
            crate::fixed::lemma_tdiv_bounds((su * SCALE as i128) as int, adet as int);
            crate::fixed::lemma_tdiv_bounds((sv * SCALE as i128) as int, adet as int);
        }
        let u = crate::fixed::div_trunc(su * SCALE as i128, adet) as i64;
        let v = crate::fixed::div_trunc(sv * SCALE as i128, adet) as i64;
        let w = SCALE - u - v;
        let position = ray.along(d64);
        let n0 = t.normals.0;
        let n1 = t.normals.1;
        let n2 = t.normals.2;
        let tc0 = t.texture_coords.0;
        let tc1 = t.texture_coords.1;
        let tc2 = t.texture_coords.2;
        proof {
            lemma_prod_bound2(w as int, n0.x as int, 0x8_0000, 0x1000_0000);
            lemma_prod_bound2(u as int, n1.x as int, 0x8_0000, 0x1000_0000);
            lemma_prod_bound2(v as int, n2.x as int, 0x8_0000, 0x1000_0000);
            lemma_prod_bound2(w as int, n0.y as int, 0x8_0000, 0x1000_0000);
            lemma_prod_bound2(u as int, n1.y as int, 0x8_0000, 0x1000_0000);
            lemma_prod_bound2(v as int, n2.y as int, 0x8_0000, 0x1000_0000);
            lemma_prod_bound2(w as int, n0.z as int, 0x8_0000, 0x1000_0000);
            lemma_prod_bound2(u as int, n1.z as int, 0x8_0000, 0x1000_0000);
            lemma_prod_bound2(v as int, n2.z as int, 0x8_0000, 0x1000_0000);
            lemma_prod_bound2(w as int, tc0.x as int, 0x8_0000, 0x1000_0000);
            lemma_prod_bound2(u as int, tc1.x as int, 0x8_0000, 0x1000_0000);
            lemma_prod_bound2(v as int, tc2.x as int, 0x8_0000, 0x1000_0000);
            lemma_prod_bound2(w as int, tc0.y as int, 0x8_0000, 0x1000_0000);
            lemma_prod_bound2(u as int, tc1.y as int, 0x8_0000, 0x1000_0000);
            lemma_prod_bound2(v as int, tc2.y as int, 0x8_0000, 0x1000_0000);
        }
        let nvx = crate::fixed::scale_down(w as i128 * n0.x as i128 + u as i128 * n1.x as i128
            + v as i128 * n2.x as i128);
        let nvy = crate::fixed::scale_down(w as i128 * n0.y as i128 + u as i128 * n1.y as i128
            + v as i128 * n2.y as i128);
        let nvz = crate::fixed::scale_down(w as i128 * n0.z as i128 + u as i128 * n1.z as i128
            + v as i128 * n2.z as i128);
        let interp = Vector3 { x: nvx, y: nvy, z: nvz }.normalize();
        let normal = if t.orient_by_det && s < 0 {
            Vector3 { x: -interp.x, y: -interp.y, z: -interp.z }
        } else {
            interp
        };
        let tcx = crate::fixed::scale_down(w as i128 * tc0.x as i128 + u as i128 * tc1.x as i128
            + v as i128 * tc2.x as i128);
        let tcy = crate::fixed::scale_down(w as i128 * tc0.y as i128 + u as i128 * tc1.y as i128
            + v as i128 * tc2.y as i128);
        Some(Intersection {
            distance: d64,
            position,
            incident: ray.dir,
            normal,
            texture_coords: TextureCoords::new(tcx, tcy),
        })
    }
}

/// Multiplying by a sign keeps or flips the value.
proof fn lemma_sign_flip(s: int, x: int)
    requires
        s == 1 || s == -1,
    ensures
        s * x == x || s * x == -x,
{
    assert(s * x == x || s * x == -x) by (nonlinear_arith)
        requires
            s == 1 || s == -1,
    ;
}

// --- Conservativity of the bounding boxes. ------------------------------

/// Barycentric consistency, at the level of the exact raw quantities: the
/// Moeller-Trumbore numerators solve the barycentric linear system, so
/// `w * v0 + u * v1 + v * v2` (with every weight scaled by the
/// determinant) is exactly the point the ray reaches at the reported
/// parameter. This is the identity both the box-conservativity argument
/// and the hit-position interpretation rest on.
pub proof fn lemma_tri_cramer(t: Triangle, r: Ray)
    ensures
        tri_uraw(t, r) * t.edge1.x + tri_vraw(t, r) * t.edge2.x - tri_traw(t, r) * r.dir.x
            == tri_det(t, r) * tri_tvec(t, r).0,
        tri_uraw(t, r) * t.edge1.y + tri_vraw(t, r) * t.edge2.y - tri_traw(t, r) * r.dir.y
            == tri_det(t, r) * tri_tvec(t, r).1,
        tri_uraw(t, r) * t.edge1.z + tri_vraw(t, r) * t.edge2.z - tri_traw(t, r) * r.dir.z
            == tri_det(t, r) * tri_tvec(t, r).2,
{
    let dx = r.dir.x as int;
    let dy = r.dir.y as int;
    let dz = r.dir.z as int;
    let ax = t.edge1.x as int;
    let ay = t.edge1.y as int;
    let az = t.edge1.z as int;
    let bx = t.edge2.x as int;
    let by = t.edge2.y as int;
    let bz = t.edge2.z as int;
    let tx = tri_tvec(t, r).0;
    let ty = tri_tvec(t, r).1;
    let tz = tri_tvec(t, r).2;
    let uraw = tri_uraw(t, r);
    let vraw = tri_vraw(t, r);
    let traw = tri_traw(t, r);
    let det = tri_det(t, r);
    // The components of the two auxiliary cross products, treated as
    // opaque atoms: the whole identity is bilinear in them.
    let p = tri_pvec(t, r).0;
    let q = tri_pvec(t, r).1;
    let w = tri_pvec(t, r).2;
    let k = tri_qvec(t, r).0;
    let l = tri_qvec(t, r).1;
    let m = tri_qvec(t, r).2;
    assert(uraw == tx * p + ty * q + tz * w);
    assert(vraw == dx * k + dy * l + dz * m);
    assert(traw == bx * k + by * l + bz * m);
    assert(det == ax * p + ay * q + az * w);
    // x component.
    assert(uraw * ax - det * tx == ty * q * ax + tz * w * ax - ay * q * tx - az * w * tx)
        by (nonlinear_arith)
        requires
            uraw == tx * p + ty * q + tz * w,
            det == ax * p + ay * q + az * w,
    ;
    assert(vraw * bx - traw * dx == dy * l * bx + dz * m * bx - by * l * dx - bz * m * dx)
        by (nonlinear_arith)
        requires
            vraw == dx * k + dy * l + dz * m,
            traw == bx * k + by * l + bz * m,
    ;
    assert(ty * q * ax - ay * q * tx == -(q * m)) by (nonlinear_arith)
        requires
            m == tx * ay - ty * ax,
    ;
    assert(tz * w * ax - az * w * tx == w * l) by (nonlinear_arith)
        requires
            l == tz * ax - tx * az,
    ;
    assert(dy * l * bx - by * l * dx == -(l * w)) by (nonlinear_arith)
        requires
            w == dx * by - dy * bx,
    ;
    assert(dz * m * bx - bz * m * dx == m * q) by (nonlinear_arith)
        requires
            q == dz * bx - dx * bz,
    ;
    assert(-(q * m) + w * l - (l * w) + m * q == 0) by (nonlinear_arith);
    // y component.
    assert(uraw * ay - det * ty == tx * p * ay + tz * w * ay - ax * p * ty - az * w * ty)
        by (nonlinear_arith)
        requires
            uraw == tx * p + ty * q + tz * w,
            det == ax * p + ay * q + az * w,
    ;
    assert(vraw * by - traw * dy == dx * k * by + dz * m * by - bx * k * dy - bz * m * dy)
        by (nonlinear_arith)
        requires
            vraw == dx * k + dy * l + dz * m,
            traw == bx * k + by * l + bz * m,
    ;
    assert(tx * p * ay - ax * p * ty == p * m) by (nonlinear_arith)
        requires
            m == tx * ay - ty * ax,
    ;
    assert(tz * w * ay - az * w * ty == -(w * k)) by (nonlinear_arith)
        requires
            k == ty * az - tz * ay,
    ;
    assert(dx * k * by - bx * k * dy == k * w) by (nonlinear_arith)
        requires
            w == dx * by - dy * bx,
    ;
    assert(dz * m * by - bz * m * dy == -(m * p)) by (nonlinear_arith)
        requires
            p == dy * bz - dz * by,
    ;
    assert(p * m - (w * k) + k * w - (m * p) == 0) by (nonlinear_arith);
    // z component.
    assert(uraw * az - det * tz == tx * p * az + ty * q * az - ax * p * tz - ay * q * tz)
        by (nonlinear_arith)
        requires
            uraw == tx * p + ty * q + tz * w,
            det == ax * p + ay * q + az * w,
    ;
    assert(vraw * bz - traw * dz == dx * k * bz + dy * l * bz - bx * k * dz - by * l * dz)
        by (nonlinear_arith)
        requires
            vraw == dx * k + dy * l + dz * m,
            traw == bx * k + by * l + bz * m,
    ;
    assert(tx * p * az - ax * p * tz == -(p * l)) by (nonlinear_arith)
        requires
            l == tz * ax - tx * az,
    ;
    assert(ty * q * az - ay * q * tz == q * k) by (nonlinear_arith)
        requires
            k == ty * az - tz * ay,
    ;
    assert(dx * k * bz - bx * k * dz == -(k * q)) by (nonlinear_arith)
        requires
            q == dz * bx - dx * bz,
    ;
    assert(dy * l * bz - by * l * dz == l * p) by (nonlinear_arith)
        requires
            p == dy * bz - dz * by,
    ;
    assert(-(p * l) + q * k - (k * q) + l * p == 0) by (nonlinear_arith);
}

/// A positive truncated quotient forces a positive dividend.
proof fn lemma_pos_div_pos(n: int, d: int)
    requires
        d > 0,
        tdiv(n, d) > 0,
    ensures
        n > 0,
{
    crate::fixed::lemma_tdiv_bounds(n, d);
}

/// A triangle hit yields a positive rational ray parameter that lands
/// inside the triangle's bounding box: the hit point is a convex
/// combination of the vertices.
pub proof fn lemma_tri_hit_witness(t: Triangle, r: Ray)
    requires
        tri_wf(t),
        ray_wf(r),
        tri_hit(t, r),
    ensures
        tri_adet(t, r) > 0,
        tri_st(t, r) > 0,
        in_box_at(triangle_box(t), r, tri_st(t, r), tri_adet(t, r)),
{
    let det = tri_det(t, r);
    let sg = tri_sign(t, r);
    let adet = tri_adet(t, r);
    let su = tri_su(t, r);
    let sv = tri_sv(t, r);
    let st = tri_st(t, r);
    let sw = adet - su - sv;
    assert(adet > 0) by (nonlinear_arith)
        requires
            det != 0,
            adet == (if det > 0 { 1int } else { -1int }) * det,
    ;
    // The reported distance is positive, so the numerator is too.
    lemma_pos_div_pos(st * SCALE, adet);
    assert(st > 0) by (nonlinear_arith)
        requires
            st * SCALE > 0,
            SCALE == 262144,
    ;
    lemma_tri_cramer(t, r);
    lemma_tri_witness_axis(t, r, t.vertex.x as int, t.edge1.x as int, t.edge2.x as int,
        r.origin.x as int, r.dir.x as int, tri_tvec(t, r).0, tri_uraw(t, r), tri_vraw(t, r),
        tri_traw(t, r));
    lemma_tri_witness_axis(t, r, t.vertex.y as int, t.edge1.y as int, t.edge2.y as int,
        r.origin.y as int, r.dir.y as int, tri_tvec(t, r).1, tri_uraw(t, r), tri_vraw(t, r),
        tri_traw(t, r));
    lemma_tri_witness_axis(t, r, t.vertex.z as int, t.edge1.z as int, t.edge2.z as int,
        r.origin.z as int, r.dir.z as int, tri_tvec(t, r).2, tri_uraw(t, r), tri_vraw(t, r),
        tri_traw(t, r));
}

/// One axis of the triangle-witness argument: scale the Cramer identity by
/// the determinant's sign and bound the convex combination by the vertex
/// extremes.
proof fn lemma_tri_witness_axis(t: Triangle, r: Ray, v0: int, e1: int, e2: int, o: int, d: int,
    tv: int, uraw: int, vraw: int, traw: int)
    requires
        tv == o - v0,
        uraw == tri_uraw(t, r),
        vraw == tri_vraw(t, r),
        traw == tri_traw(t, r),
        uraw * e1 + vraw * e2 - traw * d == tri_det(t, r) * tv,
        tri_det(t, r) != 0,
        0 <= tri_su(t, r) <= tri_adet(t, r),
        0 <= tri_sv(t, r),
        tri_su(t, r) + tri_sv(t, r) <= tri_adet(t, r),
        tri_adet(t, r) > 0,
    ensures
        (imin(imin(v0, v0 + e1), v0 + e2) - o) * tri_adet(t, r) <= d * tri_st(t, r) <= (imax(
            imax(v0, v0 + e1), v0 + e2) - o) * tri_adet(t, r),
{
    let sg = tri_sign(t, r);
    let adet = tri_adet(t, r);
    let su = tri_su(t, r);
    let sv = tri_sv(t, r);
    let st = tri_st(t, r);
    let sw = adet - su - sv;
    let lo = imin(imin(v0, v0 + e1), v0 + e2);
    let hi = imax(imax(v0, v0 + e1), v0 + e2);
    // Scale the identity by the sign: su*e1 + sv*e2 - st*d == adet*tv.
    assert(su * e1 + sv * e2 - st * d == adet * tv) by (nonlinear_arith)
        requires
            uraw * e1 + vraw * e2 - traw * d == tri_det(t, r) * tv,
            sg == 1 || sg == -1,
            su == sg * uraw,
            sv == sg * vraw,
            st == sg * traw,
            adet == sg * tri_det(t, r),
    ;
    // Rewrite as a convex combination of the three vertices.
    assert(adet * o + st * d == sw * v0 + su * (v0 + e1) + sv * (v0 + e2)) by (nonlinear_arith)
        requires
            su * e1 + sv * e2 - st * d == adet * tv,
            tv == o - v0,
            sw == adet - su - sv,
    ;
    assert(adet * lo <= sw * v0 + su * (v0 + e1) + sv * (v0 + e2) <= adet * hi)
        by (nonlinear_arith)
        requires
            sw >= 0,
            su >= 0,
            sv >= 0,
            sw + su + sv == adet,
            lo <= v0 <= hi,
            lo <= v0 + e1 <= hi,
            lo <= v0 + e2 <= hi,
    ;
    assert((lo - o) * adet <= d * st <= (hi - o) * adet) by (nonlinear_arith)
        requires
            adet * lo <= adet * o + st * d <= adet * hi,
    ;
}

/// A hit whose closest approach lies ahead of the origin: that approach
/// parameter, `-h / a`, is a positive rational landing inside the
/// sphere's bounding box.
proof fn lemma_sphere_outside_witness(s: Sphere, r: Ray)
    requires
        sphere_wf(s),
        ray_wf(r),
        sph_dis(s, r) >= 0,
        -sph_h(s, r) > 0,
    ensures
        ray_a(r) > 0,
        in_box_at(sphere_box(s), r, -sph_h(s, r), ray_a(r)),
{
    let ux = sph_u(s, r).0;
    let uy = sph_u(s, r).1;
    let uz = sph_u(s, r).2;
    let dx = r.dir.x as int;
    let dy = r.dir.y as int;
    let dz = r.dir.z as int;
    let a = ray_a(r);
    let h = sph_h(s, r);
    let uu = dot3(sph_u(s, r), sph_u(s, r));
    let rad = s.radius as int;
    let dis = sph_dis(s, r);
    crate::fixed::lemma_isqrt_bounds(dis);
    let sq = isqrt_spec(dis);
    // The witness parameter is the closest approach, -h / a. Each box
    // offset at that parameter, scaled by a, is one of these:
    let wx = a * ux - h * dx;
    let wy = a * uy - h * dy;
    let wz = a * uz - h * dz;
    // Expand each square over the product atoms a*u_k and h*d_k.
    let pxa = a * ux;
    let pya = a * uy;
    let pza = a * uz;
    let qxa = h * dx;
    let qya = h * dy;
    let qza = h * dz;
    assert(wx * wx == pxa * pxa - 2 * (pxa * qxa) + qxa * qxa) by (nonlinear_arith)
        requires
            wx == pxa - qxa,
    ;
    assert(wy * wy == pya * pya - 2 * (pya * qya) + qya * qya) by (nonlinear_arith)
        requires
            wy == pya - qya,
    ;
    assert(wz * wz == pza * pza - 2 * (pza * qza) + qza * qza) by (nonlinear_arith)
        requires
            wz == pza - qza,
    ;
    assert(pxa * pxa == (a * a) * (ux * ux)) by (nonlinear_arith)
        requires
            pxa == a * ux,
    ;
    assert(pya * pya == (a * a) * (uy * uy)) by (nonlinear_arith)
        requires
            pya == a * uy,
    ;
    assert(pza * pza == (a * a) * (uz * uz)) by (nonlinear_arith)
        requires
            pza == a * uz,
    ;
    assert(pxa * qxa == (a * h) * (ux * dx)) by (nonlinear_arith)
        requires
            pxa == a * ux,
            qxa == h * dx,
    ;
    assert(pya * qya == (a * h) * (uy * dy)) by (nonlinear_arith)
        requires
            pya == a * uy,
            qya == h * dy,
    ;
    assert(pza * qza == (a * h) * (uz * dz)) by (nonlinear_arith)
        requires
            pza == a * uz,
            qza == h * dz,
    ;
    assert(qxa * qxa == (h * h) * (dx * dx)) by (nonlinear_arith)
        requires
            qxa == h * dx,
    ;
    assert(qya * qya == (h * h) * (dy * dy)) by (nonlinear_arith)
        requires
            qya == h * dy,
    ;
    assert(qza * qza == (h * h) * (dz * dz)) by (nonlinear_arith)
        requires
            qza == h * dz,
    ;
    assert((a * a) * (ux * ux) + (a * a) * (uy * uy) + (a * a) * (uz * uz) == (a * a) * uu)
        by (nonlinear_arith)
        requires
            uu == ux * ux + uy * uy + uz * uz,
    ;
    assert((a * h) * (ux * dx) + (a * h) * (uy * dy) + (a * h) * (uz * dz) == (a * h) * h)
        by (nonlinear_arith)
        requires
            h == ux * dx + uy * dy + uz * dz,
    ;
    assert((h * h) * (dx * dx) + (h * h) * (dy * dy) + (h * h) * (dz * dz) == (h * h) * a)
        by (nonlinear_arith)
        requires
            a == dx * dx + dy * dy + dz * dz,
    ;
    assert(wx * wx + wy * wy + wz * wz == (a * a) * uu - 2 * ((a * h) * h) + (h * h) * a);
    // The discriminant condition bounds the squared offset at closest
    // approach by the squared radius (both scaled by a^2).
    assert(a * uu - h * h <= a * (rad * rad)) by (nonlinear_arith)
        requires
            h * h - a * (uu - rad * rad) >= 0,
    ;
    assert((a * a) * uu - 2 * ((a * h) * h) + (h * h) * a == a * (a * uu - h * h))
        by (nonlinear_arith);
    assert(a * (a * uu - h * h) <= a * (a * (rad * rad))) by (nonlinear_arith)
        requires
            a * uu - h * h <= a * (rad * rad),
            a > 0,
    ;
    assert(a * (a * (rad * rad)) == (a * rad) * (a * rad)) by (nonlinear_arith);
    assert(wx * wx + wy * wy + wz * wz <= (a * rad) * (a * rad));
    assert(wy * wy >= 0 && wz * wz >= 0 && wx * wx >= 0) by (nonlinear_arith);
    lemma_abs_from_square(wx, a * rad);
    lemma_abs_from_square(wy, a * rad);
    lemma_abs_from_square(wz, a * rad);
    // Componentwise, that is exactly membership in the box [c - r, c + r].
    assert((s.center.x - rad - r.origin.x) * a <= dx * (-h) <= (s.center.x + rad - r.origin.x)
        * a) by (nonlinear_arith)
        requires
            -(a * rad) <= wx <= a * rad,
            wx == a * ux - h * dx,
            ux == r.origin.x - s.center.x,
    ;
    assert((s.center.y - rad - r.origin.y) * a <= dy * (-h) <= (s.center.y + rad - r.origin.y)
        * a) by (nonlinear_arith)
        requires
            -(a * rad) <= wy <= a * rad,
            wy == a * uy - h * dy,
            uy == r.origin.y - s.center.y,
    ;
    assert((s.center.z - rad - r.origin.z) * a <= dz * (-h) <= (s.center.z + rad - r.origin.z)
        * a) by (nonlinear_arith)
        requires
            -(a * rad) <= wz <= a * rad,
            wz == a * uz - h * dz,
            uz == r.origin.z - s.center.z,
    ;
}

/// A sphere hit yields a positive rational ray parameter that lands
/// inside the sphere's bounding box: the closest approach when that lies
/// ahead of the origin, or any small positive parameter when the origin
/// sits strictly inside the sphere (the far-root case).
pub proof fn lemma_sphere_hit_witness(s: Sphere, r: Ray)
    requires
        sphere_wf(s),
        ray_wf(r),
        sphere_hit(s, r),
    ensures
        exists|tn: int, td: int| td > 0 && tn > 0 && #[trigger] in_box_at(sphere_box(s), r, tn,
            td),
{
    let a = ray_a(r);
    let h = sph_h(s, r);
    let uu = dot3(sph_u(s, r), sph_u(s, r));
    let rad = s.radius as int;
    let dis = sph_dis(s, r);
    crate::fixed::lemma_isqrt_bounds(dis);
    let sq = isqrt_spec(dis);
    if -h > 0 {
        lemma_sphere_outside_witness(s, r);
        assert(in_box_at(sphere_box(s), r, -h, a));
    } else {
        // The reported root is the far one, so the origin sits strictly
        // inside the sphere; one unit of parameter stays inside the box.
        assert(sph_near(s, r) <= EPSILON) by {
            crate::fixed::lemma_tdiv_bounds((-h - sq) * SCALE, a);
            assert((-h - sq) * SCALE <= 0) by (nonlinear_arith)
                requires
                    -h - sq <= 0,
                    SCALE == 262144,
            ;
        }
        lemma_pos_div_pos((-h + sq) * SCALE, a);
        assert(-h + sq > 0) by (nonlinear_arith)
            requires
                (-h + sq) * SCALE > 0,
            SCALE == 262144,
        ;
        assert(sq >= h + 1);
        assert(a * sph_c(s, r) < 0) by (nonlinear_arith)
            requires
                sq >= h + 1,
                h >= 0,
                sq * sq <= dis,
                dis == h * h - a * sph_c(s, r),
        ;
        assert(sph_c(s, r) < 0) by (nonlinear_arith)
            requires
                a > 0,
                a * sph_c(s, r) < 0,
        ;
        let ux = sph_u(s, r).0;
        let uy = sph_u(s, r).1;
        let uz = sph_u(s, r).2;
        assert(ux * ux <= uu && uy * uy <= uu && uz * uz <= uu) by (nonlinear_arith)
            requires
                uu == ux * ux + uy * uy + uz * uz,
        ;
        lemma_abs_within_radius(ux, uu, rad);
        lemma_abs_within_radius(uy, uu, rad);
        lemma_abs_within_radius(uz, uu, rad);
        assert(in_box_at(sphere_box(s), r, 1, SCALE as int));
    }
}

/// A component strictly inside the squared radius stays at least one unit
/// from the sphere's surface.
proof fn lemma_abs_within_radius(u: int, uu: int, rad: int)
    requires
        u * u <= uu,
        uu < rad * rad,
        rad >= 1,
    ensures
        -(rad - 1) <= u <= rad - 1,
{
    if u > rad - 1 || u < -(rad - 1) {
        assert(rad * rad <= u * u) by (nonlinear_arith)
            requires
                rad >= 1,
                u > rad - 1 || u < -(rad - 1),
        ;
    }
}

/// A square bounded by a square bounds the magnitude.
proof fn lemma_abs_from_square(w: int, m: int)
    requires
        w * w <= m * m,
        m >= 0,
        w * w >= 0,
    ensures
        -m <= w <= m,
{
    if w > m || w < -m {
        assert(w * w > m * m) by (nonlinear_arith)
            requires
                m >= 0,
                w > m || w < -m,
        ;
    }
}

/// A well-formed primitive's bounding box has its corners in range.
pub proof fn lemma_surface_box_wf(s: Surface)
    requires
        surface_wf(s),
    ensures
        crate::bounds::box_wf(surface_box(s)),
        surface_box(s).min.x <= surface_box(s).max.x,
        surface_box(s).min.y <= surface_box(s).max.y,
        surface_box(s).min.z <= surface_box(s).max.z,
{
    match s {
        Surface::Ball(_) => {
        },
        Surface::Tri(_) => {
        },
    }
}

/// Whether the primitive reports a hit.
pub open spec fn surface_hit(s: Surface, r: Ray) -> bool {
    match s {
        Surface::Ball(b) => sphere_hit(b, r),
        Surface::Tri(t) => tri_hit(t, r),
    }
}

/// Conservativity, uniformly over primitives: a hit primitive's bounding
/// box is reached by the ray at a positive rational parameter.
pub proof fn lemma_surface_hit_witness(s: Surface, r: Ray)
    requires
        surface_wf(s),
        ray_wf(r),
        surface_hit(s, r),
    ensures
        exists|tn: int, td: int| td > 0 && tn > 0 && #[trigger] in_box_at(surface_box(s), r, tn,
            td),
{
    match s {
        Surface::Ball(b) => {
            lemma_sphere_hit_witness(b, r);
            let (tn, td) = choose|tn: int, td: int|
                td > 0 && tn > 0 && #[trigger] in_box_at(sphere_box(b), r, tn, td);
            assert(in_box_at(surface_box(s), r, tn, td));
        },
        Surface::Tri(t) => {
            lemma_tri_hit_witness(t, r);
            assert(in_box_at(surface_box(s), r, tri_st(t, r), tri_adet(t, r)));
        },
    }
}

/// A ray parallel to the triangle's plane — direction orthogonal to the
/// geometric normal `edge1 x edge2` — never intersects, and the test
/// decides this without any division.
pub proof fn lemma_parallel_ray_misses(t: Triangle, r: Ray)
    requires
        dot3(vt(r.dir), cross3(vt(t.edge1), vt(t.edge2))) == 0,
    ensures
        triangle_intersect_spec(t, r) == None::<Intersection>,
{
    let dx = r.dir.x as int;
    let dy = r.dir.y as int;
    let dz = r.dir.z as int;
    let ax = t.edge1.x as int;
    let ay = t.edge1.y as int;
    let az = t.edge1.z as int;
    let bx = t.edge2.x as int;
    let by = t.edge2.y as int;
    let bz = t.edge2.z as int;
    let det = tri_det(t, r);
    let g = dot3(vt(r.dir), cross3(vt(t.edge1), vt(t.edge2)));
    assert(det == ax * (dy * bz - dz * by) + ay * (dz * bx - dx * bz) + az * (dx * by - dy * bx));
    assert(g == dx * (ay * bz - az * by) + dy * (az * bx - ax * bz) + dz * (ax * by - ay * bx));
    // Distribute each of the six products into monomials.
    assert(ax * (dy * bz - dz * by) == ax * (dy * bz) - ax * (dz * by)) by (nonlinear_arith);
    assert(ay * (dz * bx - dx * bz) == ay * (dz * bx) - ay * (dx * bz)) by (nonlinear_arith);
    assert(az * (dx * by - dy * bx) == az * (dx * by) - az * (dy * bx)) by (nonlinear_arith);
    assert(dx * (ay * bz - az * by) == dx * (ay * bz) - dx * (az * by)) by (nonlinear_arith);
    assert(dy * (az * bx - ax * bz) == dy * (az * bx) - dy * (ax * bz)) by (nonlinear_arith);
    assert(dz * (ax * by - ay * bx) == dz * (ax * by) - dz * (ay * bx)) by (nonlinear_arith);
    // Matching monomials are equal up to reassociation.
    assert(ax * (dy * bz) == dy * (ax * bz)) by (nonlinear_arith);
    assert(ax * (dz * by) == dz * (ax * by)) by (nonlinear_arith);
    assert(ay * (dz * bx) == dz * (ay * bx)) by (nonlinear_arith);
    assert(ay * (dx * bz) == dx * (ay * bz)) by (nonlinear_arith);
    assert(az * (dx * by) == dx * (az * by)) by (nonlinear_arith);
    assert(az * (dy * bx) == dy * (az * bx)) by (nonlinear_arith);
}

/// Executable three-way minimum.
fn min3(a: i64, b: i64, c: i64) -> (r: i64)
    ensures
        r == imin(imin(a as int, b as int), c as int),
{
    let m = if a <= b { a } else { b };
    if m <= c { m } else { c }
}

/// Executable three-way maximum.
fn max3(a: i64, b: i64, c: i64) -> (r: i64)
    ensures
        r == imax(imax(a as int, b as int), c as int),
{
    let m = if a >= b { a } else { b };
    if m >= c { m } else { c }
}

// --- The closed set of primitives. --------------------------------------

/// A scene primitive: the capability set is `bounding_box` and
/// `intersect`, over a closed pair of variants.
#[derive(Clone, Copy, Debug)]
pub enum Surface {
    Ball(Sphere),
    Tri(Triangle),
}

/// Well-formedness of whichever primitive this is.
pub open spec fn surface_wf(s: Surface) -> bool {
    match s {
        Surface::Ball(b) => sphere_wf(b),
        Surface::Tri(t) => tri_wf(t),
    }
}

/// The primitive's tight bounding box.
pub open spec fn surface_box(s: Surface) -> BoundingBox {
    match s {
        Surface::Ball(b) => sphere_box(b),
        Surface::Tri(t) => triangle_box(t),
    }
}

/// The primitive's ray-test verdict.
pub open spec fn surface_intersect_spec(s: Surface, r: Ray) -> Option<Intersection> {
    match s {
        Surface::Ball(b) => sphere_intersect_spec(b, r),
        Surface::Tri(t) => triangle_intersect_spec(t, r),
    }
}

impl Surface {
    /// The tight axis-aligned box around this primitive.
    pub fn bounding_box(&self) -> (r: BoundingBox)
        requires
            surface_wf(*self),
        ensures
            r == surface_box(*self),
    {
        match self {
            Surface::Ball(b) => b.bounding_box(),
            Surface::Tri(t) => t.bounding_box(),
        }
    }

    /// The primitive's exact ray test.
    pub fn intersect(&self, ray: &Ray) -> (r: Option<Intersection>)
        requires
            surface_wf(*self),
            ray_wf(*ray),
        ensures
            r == surface_intersect_spec(*self, *ray),
    {
        match self {
            Surface::Ball(b) => b.intersect(ray),
            Surface::Tri(t) => t.intersect(ray),
        }
    }
}

} // verus!
