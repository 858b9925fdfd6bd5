//! The hierarchy against the brute-force scan, on randomized scenes.

use rand::rngs::SmallRng;
use rand::{Rng, SeedableRng};

use rays::bvh::BoundingVolumeHierarchy;
use rays::color::Rgb;
use rays::fixed::SCALE;
use rays::material::{Color, Material};
use rays::object::Object;
use rays::ray::Ray;
use rays::surface::{Sphere, Surface, Triangle};
use rays::types::{Point3, Vector3};

fn s(v: f64) -> i64 {
    (v * SCALE as f64) as i64
}

fn white() -> Material {
    Material::diffuse(Color::solid(Rgb::new(SCALE, SCALE, SCALE)))
}

fn random_scene(rng: &mut SmallRng, n: usize) -> Vec<Object> {
    let mut objects = Vec::new();
    for _ in 0..n {
        let cx = s(rng.gen_range(-20.0..20.0));
        let cy = s(rng.gen_range(-20.0..20.0));
        let cz = s(rng.gen_range(-20.0..20.0));
        if rng.gen_bool(0.5) {
            let r = s(rng.gen_range(0.2..3.0));
            objects.push(Object::new(
                Surface::Ball(Sphere::new(Point3::new(cx, cy, cz), r)),
                white(),
            ));
        } else {
            let dx = s(rng.gen_range(0.2..4.0));
            let dy = s(rng.gen_range(0.2..4.0));
            let tri = Triangle::new(
                Point3::new(cx, cy, cz),
                Point3::new(cx + dx, cy, cz),
                Point3::new(cx, cy + dy, cz),
                None,
                None,
            );
            objects.push(Object::new(Surface::Tri(tri), white()));
        }
    }
    objects
}

fn random_ray(rng: &mut SmallRng) -> Ray {
    let ox = s(rng.gen_range(-25.0..25.0));
    let oy = s(rng.gen_range(-25.0..25.0));
    let oz = s(rng.gen_range(-25.0..25.0));
    let dx = s(rng.gen_range(-1.0..1.0));
    let dy = s(rng.gen_range(-1.0..1.0));
    let dz = s(rng.gen_range(-1.0..1.0));
    if dx == 0 && dy == 0 && dz == 0 {
        Ray::new(Point3::new(ox, oy, oz), Vector3::new(SCALE, 0, 0))
    } else {
        Ray::new(Point3::new(ox, oy, oz), Vector3::new(dx, dy, dz))
    }
}

/// The minimum hit distance a linear scan over every object reports.
fn brute_force(objects: &[Object], ray: &Ray) -> Option<i64> {
    let mut best: Option<i64> = None;
    for o in objects {
        if let Some(c) = o.collide(ray) {
            best = Some(match best {
                Some(b) if b <= c.intersection.distance => b,
                _ => c.intersection.distance,
            });
        }
    }
    best
}

#[test]
fn closest_hit_equals_linear_scan() {
    let mut rng = SmallRng::seed_from_u64(7);
    for round in 0..4 {
        let objects = random_scene(&mut rng, 24 + round);
        let reference = objects.clone();
        let bvh = BoundingVolumeHierarchy::new(objects);
        for _ in 0..200 {
            let ray = random_ray(&mut rng);
            let expected = brute_force(&reference, &ray);
            let got = bvh.sample(&ray).map(|c| c.intersection.distance);
            assert_eq!(got, expected);
        }
    }
}

#[test]
fn closest_hit_on_miss_everything() {
    let mut rng = SmallRng::seed_from_u64(11);
    let objects = random_scene(&mut rng, 10);
    let bvh = BoundingVolumeHierarchy::new(objects);
    // A ray far outside the scene, pointing away.
    let ray = Ray::new(Point3::new(s(500.0), s(500.0), s(500.0)), Vector3::new(0, 0, SCALE));
    assert!(bvh.sample(&ray).is_none());
}

#[test]
fn single_object_tree() {
    let sphere = Object::new(
        Surface::Ball(Sphere::new(Point3::new(0, 0, s(5.0)), SCALE)),
        white(),
    );
    let bvh = BoundingVolumeHierarchy::new(vec![sphere]);
    let ray = Ray::new(Point3::new(0, 0, 0), Vector3::new(0, 0, SCALE));
    let hit = bvh.sample(&ray).expect("must hit");
    assert!((hit.intersection.distance - s(4.0)).abs() <= 4);
}
