//! Geometry-level checks: boxes, primitives, rays.

use rays::bounds::BoundingBox;
use rays::fixed::SCALE;
use rays::ray::Ray;
use rays::surface::{Sphere, Triangle, Surface};
use rays::types::{Point3, Vector3};

fn s(v: f64) -> i64 {
    (v * SCALE as f64) as i64
}

#[test]
fn sphere_straight_ahead_hit() {
    // Sphere at (0, 0, 5), radius 1; ray from the origin along +z.
    let sphere = Sphere::new(Point3::new(0, 0, s(5.0)), SCALE);
    let ray = Ray::new(Point3::new(0, 0, 0), Vector3::new(0, 0, SCALE));
    let hit = sphere.intersect(&ray).expect("must hit");
    // Expected distance 4.0, position (0, 0, 4), normal (0, 0, -1).
    assert!((hit.distance - s(4.0)).abs() <= 4, "distance {}", hit.distance);
    assert!(hit.position.x().abs() <= 4);
    assert!(hit.position.y().abs() <= 4);
    assert!((hit.position.z() - s(4.0)).abs() <= 4);
    assert!(hit.normal.x().abs() <= 4);
    assert!(hit.normal.y().abs() <= 4);
    assert!((hit.normal.z() + SCALE).abs() <= 4, "normal.z {}", hit.normal.z());
    assert_eq!(hit.incident.z(), SCALE);
}

#[test]
fn sphere_hit_from_inside_reports_the_exit() {
    // A ray starting at the center leaves through the far surface: the
    // near root is behind the threshold, so the far root is reported.
    let sphere = Sphere::new(Point3::new(0, 0, 0), s(2.0));
    let ray = Ray::new(Point3::new(0, 0, 0), Vector3::new(0, 0, SCALE));
    let hit = sphere.intersect(&ray).expect("a ray from the center exits the sphere");
    assert!((hit.distance - s(2.0)).abs() <= 4, "distance {}", hit.distance);
    assert!((hit.position.z() - s(2.0)).abs() <= 4);
    // The outward normal at the exit points along +z.
    assert!((hit.normal.z() - SCALE).abs() <= 4, "normal.z {}", hit.normal.z());
}

#[test]
fn sphere_miss_and_behind() {
    let sphere = Sphere::new(Point3::new(0, 0, s(5.0)), SCALE);
    // Pointing away: the sphere is behind the origin.
    let away = Ray::new(Point3::new(0, 0, 0), Vector3::new(0, 0, -SCALE));
    assert!(sphere.intersect(&away).is_none());
    // Offset sideways by more than the radius.
    let off = Ray::new(Point3::new(s(3.0), 0, 0), Vector3::new(0, 0, SCALE));
    assert!(off.along(s(1.0)).x() == s(3.0));
    assert!(sphere.intersect(&off).is_none());
}

#[test]
fn triangle_parallel_ray_misses() {
    // Triangle in the plane z = 2; ray travelling inside the plane z = 0,
    // direction orthogonal to the triangle's normal.
    let tri = Triangle::new(
        Point3::new(0, 0, s(2.0)),
        Point3::new(s(1.0), 0, s(2.0)),
        Point3::new(0, s(1.0), s(2.0)),
        None,
        None,
    );
    let ray = Ray::new(Point3::new(-s(5.0), 0, 0), Vector3::new(SCALE, 0, 0));
    assert!(tri.intersect(&ray).is_none());
    // The same ray lifted into the triangle's plane still counts as
    // parallel (determinant zero), never a division failure.
    let coplanar = Ray::new(Point3::new(-s(5.0), 0, s(2.0)), Vector3::new(SCALE, 0, 0));
    assert!(tri.intersect(&coplanar).is_none());
}

#[test]
fn triangle_straight_hit_with_barycentric_position() {
    let tri = Triangle::new(
        Point3::new(-s(1.0), -s(1.0), s(3.0)),
        Point3::new(s(3.0), -s(1.0), s(3.0)),
        Point3::new(-s(1.0), s(3.0), s(3.0)),
        None,
        None,
    );
    let ray = Ray::new(Point3::new(0, 0, 0), Vector3::new(0, 0, SCALE));
    let hit = tri.intersect(&ray).expect("must hit");
    assert!((hit.distance - s(3.0)).abs() <= 4);
    // The hit position is on the triangle's plane, at the ray axis.
    assert!(hit.position.x().abs() <= 4);
    assert!(hit.position.y().abs() <= 4);
    assert!((hit.position.z() - s(3.0)).abs() <= 4);
    // The defaulted geometric normal is oriented by the determinant's
    // sign, so it faces the incoming +z ray.
    assert!(hit.normal.x().abs() <= 4);
    assert!(hit.normal.y().abs() <= 4);
    assert!((hit.normal.z() + SCALE).abs() <= 4, "normal.z {}", hit.normal.z());
}

#[test]
fn triangle_default_normal_faces_the_ray_from_either_side() {
    let tri = Triangle::new(
        Point3::new(-s(1.0), -s(1.0), s(2.0)),
        Point3::new(s(1.0), -s(1.0), s(2.0)),
        Point3::new(-s(1.0), s(1.0), s(2.0)),
        None,
        None,
    );
    // Hit from below, travelling +z: the reported normal points back down.
    let from_below = Ray::new(Point3::new(0, 0, 0), Vector3::new(0, 0, SCALE));
    let hit = tri.intersect(&from_below).expect("must hit");
    assert!((hit.normal.z() + SCALE).abs() <= 4, "normal.z {}", hit.normal.z());
    // Hit from above, travelling -z: the reported normal points back up.
    let from_above = Ray::new(Point3::new(0, 0, s(5.0)), Vector3::new(0, 0, -SCALE));
    let hit = tri.intersect(&from_above).expect("must hit");
    assert!((hit.normal.z() - SCALE).abs() <= 4, "normal.z {}", hit.normal.z());
}

#[test]
fn ray_direction_is_normalized() {
    for (x, y, z) in [
        (3.0, 4.0, 0.0),
        (1.0, 1.0, 1.0),
        (-2.5, 0.5, 10.0),
        (0.0, 0.0, 0.125),
        (1000.0, -1.0, 0.001),
    ] {
        let ray = Ray::new(Point3::new(0, 0, 0), Vector3::new(s(x), s(y), s(z)));
        let d = ray.dir;
        let norm2 = d.x() as f64 * d.x() as f64 + d.y() as f64 * d.y() as f64 + d.z() as f64
            * d.z() as f64;
        let norm = norm2.sqrt() / SCALE as f64;
        // Within the fixed-point grid's resolution of unit length.
        assert!((norm - 1.0).abs() < 1e-5, "norm {}", norm);
    }
}

#[test]
fn box_union_contains_and_commutes() {
    let a = BoundingBox::axis_aligned(s(-1.0), s(2.0), s(0.0), s(1.0), s(-3.0), s(0.5));
    let b = BoundingBox::axis_aligned(s(0.0), s(5.0), s(-2.0), s(0.0), s(-1.0), s(4.0));
    let u = BoundingBox::union(&a, &b);
    let v = BoundingBox::union(&b, &a);
    assert_eq!(u, v);
    for inner in [a, b] {
        assert!(u.min.x() <= inner.min.x() && inner.max.x() <= u.max.x());
        assert!(u.min.y() <= inner.min.y() && inner.max.y() <= u.max.y());
        assert!(u.min.z() <= inner.min.z() && inner.max.z() <= u.max.z());
    }
    let e = BoundingBox::empty();
    assert_eq!(BoundingBox::union(&e, &a), a);
    assert_eq!(BoundingBox::union(&a, &e), a);
}

#[test]
fn box_slab_test_hits_and_misses() {
    let b = BoundingBox::axis_aligned(s(-1.0), s(1.0), s(-1.0), s(1.0), s(4.0), s(6.0));
    let toward = Ray::new(Point3::new(0, 0, 0), Vector3::new(0, 0, SCALE));
    assert!(b.intersects(&toward));
    let away = Ray::new(Point3::new(0, 0, 0), Vector3::new(0, 0, -SCALE));
    assert!(!b.intersects(&away));
    // Axis-parallel ray whose origin lies outside the x slab.
    let parallel = Ray::new(Point3::new(s(2.0), 0, 0), Vector3::new(0, 0, SCALE));
    assert!(!b.intersects(&parallel));
}

#[test]
fn surface_enum_dispatch() {
    let sphere = Surface::Ball(Sphere::new(Point3::new(0, 0, s(5.0)), SCALE));
    let bb = sphere.bounding_box();
    assert_eq!(bb.min.z(), s(4.0));
    assert_eq!(bb.max.z(), s(6.0));
    let ray = Ray::new(Point3::new(0, 0, 0), Vector3::new(0, 0, SCALE));
    assert!(sphere.intersect(&ray).is_some());
}
