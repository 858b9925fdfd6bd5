//! Vectors, points and small matrices over fixed-point scalars.
//!
//! Raw products (`dot_raw`, `cross_raw`) are exact integers; the fixed-point
//! operations divide them back down by `SCALE` with truncation (and
//! normalization rounds to nearest over a `SCALE`-times-finer norm), and
//! every executable method is pinned to a specification mirror of its
//! rounding.

use vstd::prelude::*;

use crate::fixed::{isqrt, isqrt_spec, lemma_isqrt_bounds, tdiv, SCALE};

verus! {

#[derive(Clone, Copy, PartialEq, Eq, Structural, Debug)]
pub struct Vector3 {
    pub x: i64,
    pub y: i64,
    pub z: i64,
}

#[derive(Clone, Copy, PartialEq, Eq, Structural, Debug)]
pub struct Point3 {
    pub x: i64,
    pub y: i64,
    pub z: i64,
}

/// A 3x3 matrix held as its three rows.
#[derive(Clone, Copy, PartialEq, Eq, Structural, Debug)]
pub struct Mat3 {
    pub r0: Vector3,
    pub r1: Vector3,
    pub r2: Vector3,
}

#[derive(Clone, Copy, PartialEq, Eq, Structural, Debug)]
pub enum Axis {
    X,
    Y,
    Z,
}

/// All three components lie within `[-b, b]`.
pub open spec fn bounded_v(v: Vector3, b: int) -> bool {
    -b <= v.x <= b && -b <= v.y <= b && -b <= v.z <= b
}

/// All three components lie within `[-b, b]`.
pub open spec fn bounded_p(p: Point3, b: int) -> bool {
    -b <= p.x <= b && -b <= p.y <= b && -b <= p.z <= b
}

/// The exact (unscaled) dot product.
pub open spec fn dot_raw(a: Vector3, b: Vector3) -> int {
    a.x * b.x + a.y * b.y + a.z * b.z
}

/// A vector's components as an exact integer triple.
pub open spec fn vt(v: Vector3) -> (int, int, int) {
    (v.x as int, v.y as int, v.z as int)
}

/// Exact dot product of integer triples.
pub open spec fn dot3(a: (int, int, int), b: (int, int, int)) -> int {
    a.0 * b.0 + a.1 * b.1 + a.2 * b.2
}

/// Exact cross product of integer triples.
pub open spec fn cross3(a: (int, int, int), b: (int, int, int)) -> (int, int, int) {
    (a.1 * b.2 - a.2 * b.1, a.2 * b.0 - a.0 * b.2, a.0 * b.1 - a.1 * b.0)
}

/// The exact (unscaled) cross product, componentwise.
pub open spec fn cross_raw(a: Vector3, b: Vector3) -> (int, int, int) {
    (a.y * b.z - a.z * b.y, a.z * b.x - a.x * b.z, a.x * b.y - a.y * b.x)
}

/// The fixed-point norm of `v`: the floor square root of the raw
/// self-product is already in fixed-point units.
pub open spec fn norm_spec(v: Vector3) -> int {
    isqrt_spec(dot_raw(v, v))
}

/// The high-precision norm: `SCALE` times the vector's true length,
/// rounded down — the floor square root of the raw self-product scaled up
/// by `SCALE^2`.
pub open spec fn norm2_spec(v: Vector3) -> int {
    isqrt_spec(dot_raw(v, v) * ((SCALE as int) * (SCALE as int)))
}

/// One component of the normalized vector: the component scaled by
/// `SCALE^2` and divided by the high-precision norm, rounded to nearest
/// (by magnitude, half away from zero).
pub open spec fn unit_comp(c: int, n2: int) -> int {
    if c >= 0 {
        (c * SCALE * SCALE + n2 / 2) / n2
    } else {
        -(((-c) * SCALE * SCALE + n2 / 2) / n2)
    }
}

/// The tangent frame about a (unit-length) vector, mirrored exactly.
pub open spec fn tangent_frame(v: Vector3) -> Mat3 {
    let vax: int = if v.x >= 0 { v.x as int } else { -(v.x as int) };
    let t = if 100 * vax > 99 * SCALE {
        Vector3 { x: v.y, y: (-(v.x as int)) as i64, z: 0 }
    } else {
        Vector3 { x: 0, y: v.z, z: (-(v.y as int)) as i64 }
    };
    let b = Vector3 {
        x: tdiv(cross_raw(v, t).0, SCALE as int) as i64,
        y: tdiv(cross_raw(v, t).1, SCALE as int) as i64,
        z: tdiv(cross_raw(v, t).2, SCALE as int) as i64,
    };
    Mat3 {
        r0: Vector3 { x: t.x, y: b.x, z: v.x },
        r1: Vector3 { x: t.y, y: b.y, z: v.y },
        r2: Vector3 { x: t.z, y: b.z, z: v.z },
    }
}

/// Snell refraction, mirrored exactly: the cosine of the incident angle,
/// the squared sine scaled by the index ratio, and `None` when the
/// refracted cosine would be imaginary (total internal reflection).
pub open spec fn refract_spec(v: Vector3, incident: Vector3, eta: int) -> Option<Vector3> {
    let cosi_signed = tdiv(dot_raw(v, incident), SCALE as int);
    let cosi = if cosi_signed >= 0 { cosi_signed } else { -cosi_signed };
    let eta2 = tdiv(eta * eta, SCALE as int);
    let sin2 = SCALE - tdiv(cosi * cosi, SCALE as int);
    let cost2 = SCALE - tdiv(eta2 * sin2, SCALE as int);
    if cost2 < 0 {
        None
    } else {
        let k = tdiv(eta * cosi, SCALE as int) - isqrt_spec(cost2 * SCALE);
        Some(Vector3 {
            x: (tdiv(incident.x * eta, SCALE as int) + tdiv(v.x * k, SCALE as int)) as i64,
            y: (tdiv(incident.y * eta, SCALE as int) + tdiv(v.y * k, SCALE as int)) as i64,
            z: (tdiv(incident.z * eta, SCALE as int) + tdiv(v.z * k, SCALE as int)) as i64,
        })
    }
}

/// Reflection of `incident` about a (unit-length) vector, mirrored
/// exactly.
pub open spec fn reflect_spec(v: Vector3, incident: Vector3) -> Vector3 {
    let d = tdiv(dot_raw(v, incident), SCALE as int);
    Vector3 {
        x: (incident.x - tdiv(2 * d * v.x, SCALE as int)) as i64,
        y: (incident.y - tdiv(2 * d * v.y, SCALE as int)) as i64,
        z: (incident.z - tdiv(2 * d * v.z, SCALE as int)) as i64,
    }
}

/// The normalized direction as an exact component triple; the zero vector
/// normalizes to the +z unit.
pub open spec fn unit_of(v: Vector3) -> (int, int, int) {
    if dot_raw(v, v) == 0 {
        (0, 0, SCALE as int)
    } else {
        let n2 = norm2_spec(v);
        (unit_comp(v.x as int, n2), unit_comp(v.y as int, n2), unit_comp(v.z as int, n2))
    }
}

impl Vector3 {
    pub fn new(x: i64, y: i64, z: i64) -> (r: Vector3)
        ensures
            r == (Vector3 { x, y, z }),
    {
        Vector3 { x, y, z }
    }

    pub fn x(&self) -> (r: i64)
        ensures
            r == self.x,
    {
        self.x
    }

    pub fn y(&self) -> (r: i64)
        ensures
            r == self.y,
    {
        self.y
    }

    pub fn z(&self) -> (r: i64)
        ensures
            r == self.z,
    {
        self.z
    }

    pub fn plus(self, other: Vector3) -> (r: Vector3)
        requires
            bounded_v(self, 0x2000_0000_0000_0000),
            bounded_v(other, 0x2000_0000_0000_0000),
        ensures
            r.x == self.x + other.x,
            r.y == self.y + other.y,
            r.z == self.z + other.z,
    {
        Vector3 { x: self.x + other.x, y: self.y + other.y, z: self.z + other.z }
    }

    pub fn minus(self, other: Vector3) -> (r: Vector3)
        requires
            bounded_v(self, 0x2000_0000_0000_0000),
            bounded_v(other, 0x2000_0000_0000_0000),
        ensures
            r.x == self.x - other.x,
            r.y == self.y - other.y,
            r.z == self.z - other.z,
    {
        Vector3 { x: self.x - other.x, y: self.y - other.y, z: self.z - other.z }
    }

    pub fn negate(self) -> (r: Vector3)
        requires
            bounded_v(self, 0x2000_0000_0000_0000),
        ensures
            r.x == -self.x,
            r.y == -self.y,
            r.z == -self.z,
    {
        Vector3 { x: -self.x, y: -self.y, z: -self.z }
    }

    /// Fixed-point scaling: each component becomes `c * s / SCALE`.
    pub fn scaled(self, s: i64) -> (r: Vector3)
        requires
            bounded_v(self, 0x3f_ffff_ffff),
            -0x3f_ffff_ffff <= s <= 0x3f_ffff_ffff,
        ensures
            r.x == tdiv(self.x * s, SCALE as int),
            r.y == tdiv(self.y * s, SCALE as int),
            r.z == tdiv(self.z * s, SCALE as int),
    {
        proof {
            lemma_prod_bound(self.x as int, s as int, 0x3f_ffff_ffff);
            lemma_prod_bound(self.y as int, s as int, 0x3f_ffff_ffff);
            lemma_prod_bound(self.z as int, s as int, 0x3f_ffff_ffff);
        }
        let x = crate::fixed::scale_down(self.x as i128 * s as i128);
        let y = crate::fixed::scale_down(self.y as i128 * s as i128);
        let z = crate::fixed::scale_down(self.z as i128 * s as i128);
        Vector3 { x, y, z }
    }

    /// The exact raw dot product, before any rescaling.
    pub fn dot_unscaled(self, other: Vector3) -> (r: i128)
        requires
            bounded_v(self, 0x7fff_ffff_ffff),
            bounded_v(other, 0x7fff_ffff_ffff),
        ensures
            r == dot_raw(self, other),
    {
        proof {
            lemma_prod_bound(self.x as int, other.x as int, 0x7fff_ffff_ffff);
            lemma_prod_bound(self.y as int, other.y as int, 0x7fff_ffff_ffff);
            lemma_prod_bound(self.z as int, other.z as int, 0x7fff_ffff_ffff);
        }
        self.x as i128 * other.x as i128 + self.y as i128 * other.y as i128 + self.z as i128
            * other.z as i128
    }

    /// The fixed-point dot product: the raw product divided by `SCALE`.
    pub fn dot(self, other: Vector3) -> (r: i64)
        requires
            bounded_v(self, 0x3f_ffff_ffff),
            bounded_v(other, 0x3f_ffff_ffff),
        ensures
            r == tdiv(dot_raw(self, other), SCALE as int),
    {
        let raw = self.dot_unscaled(other);
        proof {
            lemma_prod_bound(self.x as int, other.x as int, 0x3f_ffff_ffff);
            lemma_prod_bound(self.y as int, other.y as int, 0x3f_ffff_ffff);
            lemma_prod_bound(self.z as int, other.z as int, 0x3f_ffff_ffff);
        }
        crate::fixed::scale_down(raw)
    }

    /// The fixed-point cross product: each raw component divided by `SCALE`.
    pub fn cross(self, other: Vector3) -> (r: Vector3)
        requires
            bounded_v(self, 0x3f_ffff_ffff),
            bounded_v(other, 0x3f_ffff_ffff),
        ensures
            r.x == tdiv(cross_raw(self, other).0, SCALE as int),
            r.y == tdiv(cross_raw(self, other).1, SCALE as int),
            r.z == tdiv(cross_raw(self, other).2, SCALE as int),
    {
        proof {
            lemma_prod_bound(self.y as int, other.z as int, 0x3f_ffff_ffff);
            lemma_prod_bound(self.z as int, other.y as int, 0x3f_ffff_ffff);
            lemma_prod_bound(self.z as int, other.x as int, 0x3f_ffff_ffff);
            lemma_prod_bound(self.x as int, other.z as int, 0x3f_ffff_ffff);
            lemma_prod_bound(self.x as int, other.y as int, 0x3f_ffff_ffff);
            lemma_prod_bound(self.y as int, other.x as int, 0x3f_ffff_ffff);
        }
        let cx = self.y as i128 * other.z as i128 - self.z as i128 * other.y as i128;
        let cy = self.z as i128 * other.x as i128 - self.x as i128 * other.z as i128;
        let cz = self.x as i128 * other.y as i128 - self.y as i128 * other.x as i128;
        Vector3 {
            x: crate::fixed::scale_down(cx),
            y: crate::fixed::scale_down(cy),
            z: crate::fixed::scale_down(cz),
        }
    }

    /// The fixed-point squared norm.
    pub fn norm_squared(self) -> (r: i64)
        requires
            bounded_v(self, 0x3f_ffff_ffff),
        ensures
            r == dot_raw(self, self) / (SCALE as int),
            r >= 0,
    {
        proof {
            lemma_dot_self_nonneg(self);
            crate::fixed::lemma_tdiv_bounds(dot_raw(self, self), SCALE as int);
        }
        self.dot(self)
    }

    /// The fixed-point norm: the floor square root of the raw self-product.
    pub fn norm(self) -> (r: i64)
        requires
            bounded_v(self, 0x7fff_ffff_ffff),
        ensures
            r == norm_spec(self),
            r >= 0,
    {
        let raw = self.dot_unscaled(self);
        proof {
            lemma_dot_self_nonneg(self);
            lemma_isqrt_bounds(dot_raw(self, self));
            lemma_prod_bound(self.x as int, self.x as int, 0x7fff_ffff_ffff);
            lemma_prod_bound(self.y as int, self.y as int, 0x7fff_ffff_ffff);
            lemma_prod_bound(self.z as int, self.z as int, 0x7fff_ffff_ffff);
            lemma_isqrt_result_bound(dot_raw(self, self), 0x2_0000_0000_0000);
        }
        isqrt(raw as u128) as i64
    }

    /// Rescale to unit length up to the fixed-point grid; the zero vector
    /// becomes the +z unit direction.
    pub fn normalize(self) -> (r: Vector3)
        requires
            bounded_v(self, 0x40_0000_0000),
        ensures
            r.x == unit_of(self).0,
            r.y == unit_of(self).1,
            r.z == unit_of(self).2,
            bounded_v(r, SCALE as int),
    {
        proof {
            lemma_prod_bound(self.x as int, self.x as int, 0x40_0000_0000);
            lemma_prod_bound(self.y as int, self.y as int, 0x40_0000_0000);
            lemma_prod_bound(self.z as int, self.z as int, 0x40_0000_0000);
            lemma_dot_self_nonneg(self);
        }
        let raw = self.dot_unscaled(self);
        if raw == 0 {
            Vector3 { x: 0, y: 0, z: SCALE }
        } else {
            proof {
                assert(raw * ((SCALE as i128) * (SCALE as i128))
                    < 0x4000_0000_0000_0000_0000_0000_0000_0000int) by (nonlinear_arith)
                    requires
                        0 < raw <= 0x3000_0000_0000_0000_0000,
                        SCALE == 262144,
                ;
                assert(raw * ((SCALE as i128) * (SCALE as i128)) >= (SCALE as int) * (
                SCALE as int)) by (nonlinear_arith)
                    requires
                        raw >= 1,
                        SCALE == 262144,
                ;
            }
            let s2 = SCALE as u128 * SCALE as u128;
            let big = (raw as u128) * s2;
            let n2i = isqrt(big);
            let n2 = n2i as i128;
            proof {
                lemma_isqrt_bounds(big as int);
                lemma_isqrt_result_bound(big as int, 0x200_0000_0000_0000);
                if n2i == 0 {
                    assert(big < (0 + 1) * (0 + 1));
                }
                assert(self.x * self.x * ((SCALE as int) * (SCALE as int)) < (n2 + 1) * (n2 + 1))
                    by (nonlinear_arith)
                    requires
                        self.x * self.x <= raw,
                        raw * ((SCALE as int) * (SCALE as int)) < (n2 + 1) * (n2 + 1),
                        SCALE == 262144,
                ;
                assert(self.y * self.y * ((SCALE as int) * (SCALE as int)) < (n2 + 1) * (n2 + 1))
                    by (nonlinear_arith)
                    requires
                        self.y * self.y <= raw,
                        raw * ((SCALE as int) * (SCALE as int)) < (n2 + 1) * (n2 + 1),
                        SCALE == 262144,
                ;
                assert(self.z * self.z * ((SCALE as int) * (SCALE as int)) < (n2 + 1) * (n2 + 1))
                    by (nonlinear_arith)
                    requires
                        self.z * self.z <= raw,
                        raw * ((SCALE as int) * (SCALE as int)) < (n2 + 1) * (n2 + 1),
                        SCALE == 262144,
                ;
            }
            let x = normalize_comp(self.x, n2);
            let y = normalize_comp(self.y, n2);
            let z = normalize_comp(self.z, n2);
            Vector3 { x, y, z }
        }
    }

    /// The tangent frame about this (unit-length) vector: a tangent picked
    /// by the dominant-x test, its cross product with the vector, and the
    /// vector itself, as the three columns.
    pub fn tangent_space(self) -> (r: Mat3)
        requires
            bounded_v(self, 2 * SCALE),
        ensures
            r == tangent_frame(self),
    {
        let ax = if self.x >= 0 { self.x } else { -self.x };
        let t = if 100 * ax > 99 * SCALE {
            Vector3 { x: self.y, y: -self.x, z: 0 }
        } else {
            Vector3 { x: 0, y: self.z, z: -self.y }
        };
        let b = self.cross(t);
        Mat3 {
            r0: Vector3 { x: t.x, y: b.x, z: self.x },
            r1: Vector3 { x: t.y, y: b.y, z: self.y },
            r2: Vector3 { x: t.z, y: b.z, z: self.z },
        }
    }

    /// Snell refraction of `incident` about this (unit-length) vector with
    /// the given ratio of refractive indices; `None` on total internal
    /// reflection.
    pub fn refract(self, incident: Vector3, eta: i64) -> (r: Option<Vector3>)
        requires
            bounded_v(self, 2 * SCALE),
            bounded_v(incident, 2 * SCALE),
            0 <= eta <= 0x100_0000,
        ensures
            r == refract_spec(self, incident, eta as int),
            (r matches Some(o) ==> bounded_v(o, 0x4_0000_0000)),
    {
        proof {
            lemma_prod_bound(self.x as int, incident.x as int, 0x8_0000);
            lemma_prod_bound(self.y as int, incident.y as int, 0x8_0000);
            lemma_prod_bound(self.z as int, incident.z as int, 0x8_0000);
        }
        let cosi_signed = self.dot(incident);
        proof {
            crate::fixed::lemma_tdiv_mag(dot_raw(self, incident), SCALE as int, 0x80_0000);
        }
        let cosi = if cosi_signed >= 0 {
            cosi_signed
        } else {
            -cosi_signed
        };
        proof {
            lemma_prod_bound(eta as int, eta as int, 0x100_0000);
            lemma_prod_bound(cosi as int, cosi as int, 0x80_0000);
            crate::fixed::lemma_tdiv_mag(eta * eta, SCALE as int, 0x4000_0000);
            crate::fixed::lemma_tdiv_mag(cosi * cosi, SCALE as int, 0x1000_0000);
        }
        let eta2 = crate::fixed::scale_down(eta as i128 * eta as i128);
        let sin2 = SCALE - crate::fixed::scale_down(cosi as i128 * cosi as i128);
        proof {
            lemma_prod_bound2(eta2 as int, sin2 as int, 0x4000_0000, 0x2000_0000);
            crate::fixed::lemma_tdiv_mag(eta2 * sin2, SCALE as int, 0x200_0000_0000);
        }
        let cost2 = SCALE - crate::fixed::scale_down(eta2 as i128 * sin2 as i128);
        if cost2 < 0 {
            return None;
        }
        proof {
            lemma_prod_bound2(cost2 as int, SCALE as int, 0x400_0000_0000, 0x4_0000);
            crate::types::lemma_isqrt_result_bound(cost2 * SCALE, 0x8000_0000);
            crate::fixed::lemma_isqrt_bounds(cost2 * SCALE);
            lemma_prod_bound2(eta as int, cosi as int, 0x100_0000, 0x80_0000);
            crate::fixed::lemma_tdiv_mag(eta * cosi, SCALE as int, 0x2000_0000);
        }
        let sq = isqrt((cost2 as i128 * SCALE as i128) as u128) as i64;
        let k = crate::fixed::scale_down(eta as i128 * cosi as i128) - sq;
        proof {
            lemma_prod_bound2(incident.x as int, eta as int, 0x8_0000, 0x100_0000);
            lemma_prod_bound2(incident.y as int, eta as int, 0x8_0000, 0x100_0000);
            lemma_prod_bound2(incident.z as int, eta as int, 0x8_0000, 0x100_0000);
            lemma_prod_bound2(self.x as int, k as int, 0x8_0000, 0x1_0000_0000);
            lemma_prod_bound2(self.y as int, k as int, 0x8_0000, 0x1_0000_0000);
            lemma_prod_bound2(self.z as int, k as int, 0x8_0000, 0x1_0000_0000);
            crate::fixed::lemma_tdiv_mag(incident.x * eta, SCALE as int, 0x200_0000);
            crate::fixed::lemma_tdiv_mag(incident.y * eta, SCALE as int, 0x200_0000);
            crate::fixed::lemma_tdiv_mag(incident.z * eta, SCALE as int, 0x200_0000);
            crate::fixed::lemma_tdiv_mag(self.x * k, SCALE as int, 0x2_0000_0000);
            crate::fixed::lemma_tdiv_mag(self.y * k, SCALE as int, 0x2_0000_0000);
            crate::fixed::lemma_tdiv_mag(self.z * k, SCALE as int, 0x2_0000_0000);
        }
        let x = crate::fixed::scale_down(incident.x as i128 * eta as i128)
            + crate::fixed::scale_down(self.x as i128 * k as i128);
        let y = crate::fixed::scale_down(incident.y as i128 * eta as i128)
            + crate::fixed::scale_down(self.y as i128 * k as i128);
        let z = crate::fixed::scale_down(incident.z as i128 * eta as i128)
            + crate::fixed::scale_down(self.z as i128 * k as i128);
        Some(Vector3 { x, y, z })
    }

    /// Reflect `incident` about this (unit-length) vector.
    pub fn reflect(self, incident: Vector3) -> (r: Vector3)
        requires
            bounded_v(self, 524288),
            bounded_v(incident, 524288),
        ensures
            r.x == incident.x - tdiv(2 * tdiv(dot_raw(self, incident), SCALE as int) * self.x,
                SCALE as int),
            r.y == incident.y - tdiv(2 * tdiv(dot_raw(self, incident), SCALE as int) * self.y,
                SCALE as int),
            r.z == incident.z - tdiv(2 * tdiv(dot_raw(self, incident), SCALE as int) * self.z,
                SCALE as int),
            r == reflect_spec(self, incident),
            bounded_v(r, 0x800_0000),
    {
        proof {
            lemma_prod_bound(self.x as int, incident.x as int, 524288);
            lemma_prod_bound(self.y as int, incident.y as int, 524288);
            lemma_prod_bound(self.z as int, incident.z as int, 524288);
        }
        let d = self.dot(incident);
        proof {
            crate::fixed::lemma_tdiv_mag(dot_raw(self, incident), SCALE as int, 0x100_0000);
            lemma_prod_bound2(2 * (d as int), self.x as int, 0x200_0000, 0x8_0000);
            lemma_prod_bound2(2 * (d as int), self.y as int, 0x200_0000, 0x8_0000);
            lemma_prod_bound2(2 * (d as int), self.z as int, 0x200_0000, 0x8_0000);
            crate::fixed::lemma_tdiv_mag(2 * (d as int) * (self.x as int), SCALE as int,
                0x400_0000);
            crate::fixed::lemma_tdiv_mag(2 * (d as int) * (self.y as int), SCALE as int,
                0x400_0000);
            crate::fixed::lemma_tdiv_mag(2 * (d as int) * (self.z as int), SCALE as int,
                0x400_0000);
        }
        let fx = crate::fixed::scale_down((2 * d as i128) * self.x as i128);
        let fy = crate::fixed::scale_down((2 * d as i128) * self.y as i128);
        let fz = crate::fixed::scale_down((2 * d as i128) * self.z as i128);
        Vector3 { x: incident.x - fx, y: incident.y - fy, z: incident.z - fz }
    }
}

/// `|a|, |b| <= m` bounds their product by `m * m`.
pub proof fn lemma_prod_bound(a: int, b: int, m: int)
    requires
        -m <= a <= m,
        -m <= b <= m,
        m >= 0,
    ensures
        -(m * m) <= a * b <= m * m,
{
    assert(-(m * m) <= a * b <= m * m) by (nonlinear_arith)
        requires
            -m <= a <= m,
            -m <= b <= m,
            m >= 0,
    ;
}

/// Independent bounds on two factors bound their product.
pub proof fn lemma_prod_bound2(a: int, b: int, ma: int, mb: int)
    requires
        -ma <= a <= ma,
        -mb <= b <= mb,
        ma >= 0,
        mb >= 0,
    ensures
        -(ma * mb) <= a * b <= ma * mb,
{
    assert(-(ma * mb) <= a * b <= ma * mb) by (nonlinear_arith)
        requires
            -ma <= a <= ma,
            -mb <= b <= mb,
            ma >= 0,
            mb >= 0,
    ;
}

/// A vector's raw self-product is a sum of squares.
pub proof fn lemma_dot_self_nonneg(v: Vector3)
    ensures
        dot_raw(v, v) >= 0,
        v.x * v.x <= dot_raw(v, v),
        v.y * v.y <= dot_raw(v, v),
        v.z * v.z <= dot_raw(v, v),
{
    assert(v.x * v.x >= 0 && v.y * v.y >= 0 && v.z * v.z >= 0) by (nonlinear_arith);
}

/// If `n < m * m` then its floor square root is below `m`.
pub proof fn lemma_isqrt_result_bound(n: int, m: int)
    requires
        0 <= n,
        0 < m,
        n < m * m,
    ensures
        isqrt_spec(n) < m,
{
    lemma_isqrt_bounds(n);
    let r = isqrt_spec(n);
    if r >= m {
        assert(m * m <= r * r) by (nonlinear_arith)
            requires
                0 < m <= r,
        ;
    }
}

/// Round one scaled component to the nearest multiple of the
/// high-precision norm.
fn normalize_comp(c: i64, n2: i128) -> (r: i64)
    requires
        1 <= n2 <= 0x200_0000_0000_0000,
        -0x40_0000_0000 <= c <= 0x40_0000_0000,
        c * c * ((SCALE as int) * (SCALE as int)) < (n2 + 1) * (n2 + 1),
    ensures
        r == unit_comp(c as int, n2 as int),
        -SCALE <= r <= SCALE,
{
    let h = n2 / 2;
    if c >= 0 {
        proof {
            lemma_normalize_comp_bound(c as int, n2 as int);
            assert(0 <= c * SCALE * SCALE <= 0x4000_0000_0000_0000_0000int) by (nonlinear_arith)
                requires
                    0 <= c <= 0x40_0000_0000,
                    SCALE == 262144,
            ;
        }
        let num = c as i128 * SCALE as i128 * SCALE as i128 + h;
        let q = num / n2;
        q as i64
    } else {
        proof {
            assert((-(c as int)) * (-(c as int)) * ((SCALE as int) * (SCALE as int)) == (
            c as int) * (c as int) * ((SCALE as int) * (SCALE as int))) by (nonlinear_arith);
            lemma_normalize_comp_bound(-(c as int), n2 as int);
            assert(0 <= (-(c as int)) * SCALE * SCALE <= 0x4000_0000_0000_0000_0000int)
                by (nonlinear_arith)
                requires
                    0 <= -(c as int) <= 0x40_0000_0000,
                    SCALE == 262144,
            ;
        }
        let num = (-c) as i128 * SCALE as i128 * SCALE as i128 + h;
        let q = num / n2;
        -(q as i64)
    }
}

/// With `|c| * SCALE` at most the norm, the rounded quotient stays within
/// `[0, SCALE]`.
proof fn lemma_normalize_comp_bound(m: int, n2: int)
    requires
        n2 >= 1,
        m >= 0,
        m * m * ((SCALE as int) * (SCALE as int)) < (n2 + 1) * (n2 + 1),
    ensures
        0 <= (m * SCALE * SCALE + n2 / 2) / n2 <= SCALE,
{
    let ms = m * SCALE;
    assert(ms >= 0) by (nonlinear_arith)
        requires
            ms == m * SCALE,
            m >= 0,
            SCALE == 262144,
    ;
    assert(ms * ms < (n2 + 1) * (n2 + 1)) by (nonlinear_arith)
        requires
            ms == m * SCALE,
            m * m * ((SCALE as int) * (SCALE as int)) < (n2 + 1) * (n2 + 1),
    ;
    assert(ms <= n2) by (nonlinear_arith)
        requires
            ms >= 0,
            n2 >= 1,
            ms * ms < (n2 + 1) * (n2 + 1),
    ;
    let num = m * SCALE * SCALE + n2 / 2;
    assert(m * SCALE * SCALE <= n2 * SCALE) by (nonlinear_arith)
        requires
            m * SCALE <= n2,
            SCALE == 262144,
    ;
    assert(num >= 0) by {
        assert(m * SCALE * SCALE >= 0) by (nonlinear_arith)
            requires
                m >= 0,
                SCALE == 262144,
        ;
        vstd::arithmetic::div_mod::lemma_div_pos_is_pos(n2, 2);
    }
    vstd::arithmetic::div_mod::lemma_div_pos_is_pos(num, n2);
    let q = num / n2;
    if q > SCALE {
        vstd::arithmetic::div_mod::lemma_fundamental_div_mod(num, n2);
        vstd::arithmetic::div_mod::lemma_mod_bound(num, n2);
        assert(n2 * q >= n2 * (SCALE + 1)) by (nonlinear_arith)
            requires
                n2 >= 1,
                q >= SCALE + 1,
        ;
        assert(n2 * (SCALE + 1) > n2 * SCALE + n2 / 2) by {
            vstd::arithmetic::div_mod::lemma_div_nonincreasing(n2, 2);
            assert(n2 * (SCALE + 1) == n2 * SCALE + n2) by (nonlinear_arith);
        }
    }
}

/// The rounded quotient of one component differs from the exact ratio by
/// at most half the norm: `2 * (unit_comp(c, n2) * n2 - c * SCALE^2)`
/// stays within `[-n2, n2]`.
proof fn lemma_unit_comp_err(c: int, n2: int)
    requires
        n2 >= 1,
    ensures
        -n2 <= 2 * (unit_comp(c, n2) * n2 - c * SCALE * SCALE) <= n2,
{
    let h = n2 / 2;
    vstd::arithmetic::div_mod::lemma_fundamental_div_mod(n2, 2);
    vstd::arithmetic::div_mod::lemma_mod_bound(n2, 2);
    let m: int = if c >= 0 { c } else { -c };
    let num = m * SCALE * SCALE + h;
    assert(num >= 0) by {
        assert(m * SCALE * SCALE >= 0) by (nonlinear_arith)
            requires
                m >= 0,
                SCALE == 262144,
        ;
        vstd::arithmetic::div_mod::lemma_div_pos_is_pos(n2, 2);
    }
    vstd::arithmetic::div_mod::lemma_fundamental_div_mod(num, n2);
    vstd::arithmetic::div_mod::lemma_mod_bound(num, n2);
    let q = num / n2;
    let rem = num % n2;
    // q * n2 - m * SCALE^2 == h - rem, and 2h - n2 is -1 or 0.
    assert(q * n2 == num - rem) by (nonlinear_arith)
        requires
            num == n2 * q + rem,
    ;
    let rho = q * n2 - m * SCALE * SCALE;
    assert(rho == h - rem);
    assert(-n2 <= 2 * rho <= n2);
    if c >= 0 {
        assert(unit_comp(c, n2) * n2 - c * SCALE * SCALE == rho);
    } else {
        assert(unit_comp(c, n2) == -q);
        assert((-q) * n2 - c * SCALE * SCALE == -rho) by (nonlinear_arith)
            requires
                rho == q * n2 - m * SCALE * SCALE,
                m == -c,
    ;
    }
}

/// Normalization lands on the unit sphere up to the grid: the unit
/// triple's raw squared norm lies within two grid units of `SCALE` on
/// either side — the direction's length is within `2 / SCALE` (about
/// `7.7e-6`, inside a `1e-5` tolerance) of one, for every admitted
/// nonzero input.
pub proof fn lemma_unit_norm_grid(v: Vector3)
    requires
        bounded_v(v, 0x40_0000_0000),
        dot_raw(v, v) >= 1,
    ensures
        ({
            let (ux, uy, uz) = unit_of(v);
            (SCALE - 2) * (SCALE - 2) <= ux * ux + uy * uy + uz * uz <= (SCALE + 2) * (SCALE + 2)
        }),
{
    let a = dot_raw(v, v);
    let s2 = (SCALE as int) * (SCALE as int);
    let big = a * s2;
    assert(big >= s2) by (nonlinear_arith)
        requires
            a >= 1,
            big == a * s2,
            s2 == (SCALE as int) * (SCALE as int),
            SCALE == 262144,
    ;
    crate::fixed::lemma_isqrt_bounds(big);
    let n2 = norm2_spec(v);
    assert(n2 >= SCALE) by {
        if n2 < SCALE {
            assert((n2 + 1) * (n2 + 1) <= s2) by (nonlinear_arith)
                requires
                    0 <= n2,
                    n2 + 1 <= SCALE,
                    s2 == (SCALE as int) * (SCALE as int),
            ;
        }
    }
    let (ux, uy, uz) = unit_of(v);
    let cx = v.x as int;
    let cy = v.y as int;
    let cz = v.z as int;
    lemma_unit_comp_err(cx, n2);
    lemma_unit_comp_err(cy, n2);
    lemma_unit_comp_err(cz, n2);
    let px = ux * n2;
    let py = uy * n2;
    let pz = uz * n2;
    let rx = px - cx * SCALE * SCALE;
    let ry = py - cy * SCALE * SCALE;
    let rz = pz - cz * SCALE * SCALE;
    // Squared, each scaled component expands about the exact ratio.
    assert(px * px == (cx * SCALE * SCALE) * (cx * SCALE * SCALE) + 2 * ((cx * SCALE * SCALE)
        * rx) + rx * rx) by (nonlinear_arith)
        requires
            px == cx * SCALE * SCALE + rx,
    ;
    assert(py * py == (cy * SCALE * SCALE) * (cy * SCALE * SCALE) + 2 * ((cy * SCALE * SCALE)
        * ry) + ry * ry) by (nonlinear_arith)
        requires
            py == cy * SCALE * SCALE + ry,
    ;
    assert(pz * pz == (cz * SCALE * SCALE) * (cz * SCALE * SCALE) + 2 * ((cz * SCALE * SCALE)
        * rz) + rz * rz) by (nonlinear_arith)
        requires
            pz == cz * SCALE * SCALE + rz,
    ;
    // The exact parts sum to a * SCALE^4.
    assert((cx * SCALE * SCALE) * (cx * SCALE * SCALE) + (cy * SCALE * SCALE) * (cy * SCALE
        * SCALE) + (cz * SCALE * SCALE) * (cz * SCALE * SCALE) == (a * s2) * s2)
        by (nonlinear_arith)
        requires
            a == cx * cx + cy * cy + cz * cz,
            s2 == (SCALE as int) * (SCALE as int),
    ;
    // Magnitudes for the cross terms.
    let mx: int = if cx >= 0 { cx } else { -cx };
    let my: int = if cy >= 0 { cy } else { -cy };
    let mz: int = if cz >= 0 { cz } else { -cz };
    assert(-((mx * s2) * n2) <= 2 * ((cx * SCALE * SCALE) * rx) <= (mx * s2) * n2)
        by (nonlinear_arith)
        requires
            mx == cx || mx == -cx,
            mx >= 0,
            -n2 <= 2 * rx <= n2,
            s2 == (SCALE as int) * (SCALE as int),
    ;
    assert(-((my * s2) * n2) <= 2 * ((cy * SCALE * SCALE) * ry) <= (my * s2) * n2)
        by (nonlinear_arith)
        requires
            my == cy || my == -cy,
            my >= 0,
            -n2 <= 2 * ry <= n2,
            s2 == (SCALE as int) * (SCALE as int),
    ;
    assert(-((mz * s2) * n2) <= 2 * ((cz * SCALE * SCALE) * rz) <= (mz * s2) * n2)
        by (nonlinear_arith)
        requires
            mz == cz || mz == -cz,
            mz >= 0,
            -n2 <= 2 * rz <= n2,
            s2 == (SCALE as int) * (SCALE as int),
    ;
    // The magnitude sum is bounded through Cauchy's inequality.
    assert(mx * mx == cx * cx && my * my == cy * cy && mz * mz == cz * cz) by (nonlinear_arith)
        requires
            mx == cx || mx == -cx,
            my == cy || my == -cy,
            mz == cz || mz == -cz,
    ;
    assert((mx + my + mz) * (mx + my + mz) <= 3 * a) by (nonlinear_arith)
        requires
            a == cx * cx + cy * cy + cz * cz,
            mx * mx == cx * cx && my * my == cy * cy && mz * mz == cz * cz,
            mx >= 0 && my >= 0 && mz >= 0,
    ;
    let msum = mx + my + mz;
    assert((msum * SCALE) * (msum * SCALE) <= (2 * (n2 + 1)) * (2 * (n2 + 1)))
        by (nonlinear_arith)
        requires
            msum * msum <= 3 * a,
            a * s2 < (n2 + 1) * (n2 + 1),
            s2 == (SCALE as int) * (SCALE as int),
            msum >= 0,
            a >= 1,
            n2 >= 1,
    ;
    assert(msum * SCALE <= 2 * (n2 + 1)) by (nonlinear_arith)
        requires
            msum >= 0,
            n2 >= 1,
            SCALE == 262144,
            (msum * SCALE) * (msum * SCALE) <= (2 * (n2 + 1)) * (2 * (n2 + 1)),
    ;
    // Residual squares are small and nonnegative.
    assert(rx * rx * 4 <= n2 * n2 && ry * ry * 4 <= n2 * n2 && rz * rz * 4 <= n2 * n2)
        by (nonlinear_arith)
        requires
            -n2 <= 2 * rx <= n2,
            -n2 <= 2 * ry <= n2,
            -n2 <= 2 * rz <= n2,
    ;
    assert(rx * rx >= 0 && ry * ry >= 0 && rz * rz >= 0) by (nonlinear_arith);
    // Regroup the cross-term bound about the magnitude sum.
    assert((mx * s2) * n2 + (my * s2) * n2 + (mz * s2) * n2 == ((msum * SCALE) * n2) * SCALE)
        by (nonlinear_arith)
        requires
            msum == mx + my + mz,
            s2 == (SCALE as int) * (SCALE as int),
    ;
    assert(((msum * SCALE) * n2) * SCALE >= 0) by (nonlinear_arith)
        requires
            msum >= 0,
            n2 >= 1,
            SCALE == 262144,
    ;
    // Assemble the scaled sum and divide the bound by n2^2.
    let sum_p = px * px + py * py + pz * pz;
    assert(sum_p <= (a * s2) * s2 + ((msum * SCALE) * n2) * SCALE + n2 * n2);
    assert(sum_p >= (a * s2) * s2 - ((msum * SCALE) * n2) * SCALE);
    assert(sum_p <= (SCALE + 2) * (SCALE + 2) * (n2 * n2)) by (nonlinear_arith)
        requires
            sum_p <= (a * s2) * s2 + ((msum * SCALE) * n2) * SCALE + n2 * n2,
            a * s2 < (n2 + 1) * (n2 + 1),
            msum * SCALE <= 2 * (n2 + 1),
            s2 == (SCALE as int) * (SCALE as int),
            n2 >= SCALE,
            SCALE == 262144,
    ;
    assert(sum_p >= (SCALE - 2) * (SCALE - 2) * (n2 * n2)) by (nonlinear_arith)
        requires
            sum_p >= (a * s2) * s2 - ((msum * SCALE) * n2) * SCALE,
            a * s2 >= n2 * n2,
            msum * SCALE <= 2 * (n2 + 1),
            msum >= 0,
            s2 == (SCALE as int) * (SCALE as int),
            n2 >= SCALE,
            SCALE == 262144,
    ;
    // Cancel n2^2.
    assert(px * px == (ux * ux) * (n2 * n2) && py * py == (uy * uy) * (n2 * n2) && pz * pz == (
    uz * uz) * (n2 * n2)) by (nonlinear_arith)
        requires
            px == ux * n2 && py == uy * n2 && pz == uz * n2,
    ;
    assert((ux * ux + uy * uy + uz * uz) * (n2 * n2) == sum_p) by (nonlinear_arith)
        requires
            px * px == (ux * ux) * (n2 * n2),
            py * py == (uy * uy) * (n2 * n2),
            pz * pz == (uz * uz) * (n2 * n2),
            sum_p == px * px + py * py + pz * pz,
    ;
    assert(ux * ux + uy * uy + uz * uz <= (SCALE + 2) * (SCALE + 2)) by (nonlinear_arith)
        requires
            (ux * ux + uy * uy + uz * uz) * (n2 * n2) <= (SCALE + 2) * (SCALE + 2) * (n2 * n2),
            n2 >= 1,
    ;
    assert(ux * ux + uy * uy + uz * uz >= (SCALE - 2) * (SCALE - 2)) by (nonlinear_arith)
        requires
            (ux * ux + uy * uy + uz * uz) * (n2 * n2) >= (SCALE - 2) * (SCALE - 2) * (n2 * n2),
            n2 >= 1,
    ;
}

impl Point3 {
    pub fn new(x: i64, y: i64, z: i64) -> (r: Point3)
        ensures
            r == (Point3 { x, y, z }),
    {
        Point3 { x, y, z }
    }

    pub fn x(&self) -> (r: i64)
        ensures
            r == self.x,
    {
        self.x
    }

    pub fn y(&self) -> (r: i64)
        ensures
            r == self.y,
    {
        self.y
    }

    pub fn z(&self) -> (r: i64)
        ensures
            r == self.z,
    {
        self.z
    }

    /// The component along the given axis.
    pub fn axis(&self, a: Axis) -> (r: i64)
        ensures
            r == axis_of(*self, a),
    {
        match a {
            Axis::X => self.x,
            Axis::Y => self.y,
            Axis::Z => self.z,
        }
    }

    /// Translate by a vector.
    pub fn plus_vec(self, v: Vector3) -> (r: Point3)
        requires
            bounded_p(self, 0x2000_0000_0000_0000),
            bounded_v(v, 0x2000_0000_0000_0000),
        ensures
            r.x == self.x + v.x,
            r.y == self.y + v.y,
            r.z == self.z + v.z,
    {
        Point3 { x: self.x + v.x, y: self.y + v.y, z: self.z + v.z }
    }

    /// The vector from `other` to `self`, as a specification value; it is
    /// exact whenever the difference stays in range.
    pub open spec fn minus_spec(self, other: Point3) -> Vector3 {
        Vector3 {
            x: (self.x - other.x) as i64,
            y: (self.y - other.y) as i64,
            z: (self.z - other.z) as i64,
        }
    }

    /// The vector from `other` to `self`.
    pub fn minus(self, other: Point3) -> (r: Vector3)
        requires
            bounded_p(self, 0x2000_0000_0000_0000),
            bounded_p(other, 0x2000_0000_0000_0000),
        ensures
            r.x == self.x - other.x,
            r.y == self.y - other.y,
            r.z == self.z - other.z,
            r == self.minus_spec(other),
    {
        Vector3 { x: self.x - other.x, y: self.y - other.y, z: self.z - other.z }
    }
}

/// The component of a point along an axis.
pub open spec fn axis_of(p: Point3, a: Axis) -> int {
    match a {
        Axis::X => p.x as int,
        Axis::Y => p.y as int,
        Axis::Z => p.z as int,
    }
}

impl Mat3 {
    pub fn new(r0: Vector3, r1: Vector3, r2: Vector3) -> (r: Mat3)
        ensures
            r == (Mat3 { r0, r1, r2 }),
    {
        Mat3 { r0, r1, r2 }
    }

    /// Matrix-vector product in fixed point: each output component is the
    /// fixed-point dot of a row with the vector.
    pub fn mul_vec(self, v: Vector3) -> (r: Vector3)
        requires
            bounded_v(self.r0, 0x3f_ffff_ffff),
            bounded_v(self.r1, 0x3f_ffff_ffff),
            bounded_v(self.r2, 0x3f_ffff_ffff),
            bounded_v(v, 0x3f_ffff_ffff),
        ensures
            r.x == tdiv(dot_raw(self.r0, v), SCALE as int),
            r.y == tdiv(dot_raw(self.r1, v), SCALE as int),
            r.z == tdiv(dot_raw(self.r2, v), SCALE as int),
    {
        Vector3 { x: self.r0.dot(v), y: self.r1.dot(v), z: self.r2.dot(v) }
    }
}

} // verus!
