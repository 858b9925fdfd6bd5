//! The tracing pipeline: scene compilation, the tracing step, image
//! assembly, and whole-render behaviour (determinism and the furnace
//! property) through a small sampling driver.

use rand::rngs::SmallRng;
use rand::{Rng, SeedableRng};

use rays::camera::Camera;
use rays::color::Rgb;
use rays::fixed::SCALE;
use rays::loader::{MaterialDesc, MaterialKindDesc, SceneDesc, SurfaceDesc, default_fov};
use rays::material::Kind;
use rays::ray::Ray;
use rays::render::assemble;
use rays::scene::Scene;
use rays::tracer::{PathTracer, TraceStep};
use rays::types::{Mat3, Point3, Vector3};

fn s(v: f64) -> i64 {
    (v * SCALE as f64) as i64
}

fn identity_camera() -> Camera {
    Camera::new(
        Point3::new(0, 0, 0),
        Mat3::new(
            Vector3::new(SCALE, 0, 0),
            Vector3::new(0, SCALE, 0),
            Vector3::new(0, 0, SCALE),
        ),
        SCALE,
    )
}

/// A closed box of quads around the origin, diffuse, no light.
fn closed_box(ambient: Rgb, albedo: Rgb) -> Scene {
    let l = 8.0;
    let c = |x: f64, y: f64, z: f64| Point3::new(s(x), s(y), s(z));
    let m = || MaterialDesc { kind: MaterialKindDesc::Diffuse, color: albedo };
    let desc = SceneDesc {
        camera: identity_camera(),
        global_illumination: ambient,
        objects: vec![
            SurfaceDesc::Quad { v0: c(-l, -l, l), v1: c(l, -l, l), v2: c(l, l, l), v3: c(-l, l, l), material: m() },
            SurfaceDesc::Quad { v0: c(-l, -l, -l), v1: c(l, -l, -l), v2: c(l, l, -l), v3: c(-l, l, -l), material: m() },
            SurfaceDesc::Quad { v0: c(-l, -l, -l), v1: c(-l, l, -l), v2: c(-l, l, l), v3: c(-l, -l, l), material: m() },
            SurfaceDesc::Quad { v0: c(l, -l, -l), v1: c(l, l, -l), v2: c(l, l, l), v3: c(l, -l, l), material: m() },
            SurfaceDesc::Quad { v0: c(-l, -l, -l), v1: c(l, -l, -l), v2: c(l, -l, l), v3: c(-l, -l, l), material: m() },
            SurfaceDesc::Quad { v0: c(-l, l, -l), v1: c(l, l, -l), v2: c(l, l, l), v3: c(-l, l, l), material: m() },
        ],
    };
    desc.compile().expect("closed box compiles")
}

/// A tiny unverified sampling driver: follow paths through `trace_step`,
/// bouncing diffusely (cosine-weighted) at every reflective hit and
/// terminating on emission or on the ambient term. Colours are carried in
/// floating point, as a renderer would.
fn trace_path(scene: &Scene, first: Ray, max_reflections: u32, rng: &mut SmallRng) -> [f64; 3] {
    let mut tracer = PathTracer::new(max_reflections);
    let mut ray = first;
    let mut weight = [1.0f64, 1.0, 1.0];
    loop {
        match tracer.trace_step(scene, &ray) {
            TraceStep::Finished(c) => {
                let f = SCALE as f64;
                return [
                    weight[0] * c.red as f64 / f,
                    weight[1] * c.green as f64 / f,
                    weight[2] * c.blue as f64 / f,
                ];
            }
            TraceStep::Hit(hit) => {
                let color = match &hit.material.color {
                    rays::material::Color::Solid(c) => *c,
                    rays::material::Color::Image(_) => Rgb::new(SCALE, SCALE, SCALE),
                };
                match hit.material.kind {
                    Kind::Emissive => {
                        let f = SCALE as f64;
                        return [
                            weight[0] * color.red as f64 / f,
                            weight[1] * color.green as f64 / f,
                            weight[2] * color.blue as f64 / f,
                        ];
                    }
                    Kind::Ggx { .. } => {
                        let f = SCALE as f64;
                        weight[0] *= color.red as f64 / f;
                        weight[1] *= color.green as f64 / f;
                        weight[2] *= color.blue as f64 / f;
                        // Cosine-weighted bounce about the surface normal.
                        let n = hit.intersection.normal;
                        let z = (rng.gen::<f64>()).sqrt();
                        let zp = (1.0 - z * z).sqrt();
                        let theta = rng.gen::<f64>() * std::f64::consts::TAU;
                        let dir = Vector3::new(
                            s(zp * theta.cos()),
                            s(zp * theta.sin()),
                            s(z),
                        );
                        // Flip into the hemisphere the normal points to.
                        let flipped = if n.z() < 0 { Vector3::new(dir.x(), dir.y(), -dir.z()) } else { dir };
                        let d = if flipped.x() == 0 && flipped.y() == 0 && flipped.z() == 0 {
                            Vector3::new(0, 0, SCALE)
                        } else {
                            flipped
                        };
                        ray = Ray::new(hit.intersection.position, d);
                    }
                }
            }
        }
    }
}

fn render_tiny(scene: &Scene, seed: u64, width: u32, height: u32, samples: u32) -> Vec<[i64; 3]> {
    let mut columns: Vec<Vec<[i64; 3]>> = Vec::new();
    for i in 0..width {
        let mut rng = SmallRng::seed_from_u64(seed ^ (i as u64).wrapping_mul(0x9e37_79b9));
        let mut col = Vec::new();
        for j in 0..height {
            let mut acc = [0.0f64; 3];
            for _ in 0..samples {
                let x = (i as f64 - width as f64 / 2.0 + rng.gen::<f64>() - 0.5) / width as f64;
                let y = (height as f64 / 2.0 - j as f64 + rng.gen::<f64>() - 0.5) / width as f64;
                let ray = scene.camera.get_ray(s(x), s(y));
                let c = trace_path(scene, ray, 4, &mut rng);
                acc[0] += c[0];
                acc[1] += c[1];
                acc[2] += c[2];
            }
            col.push([
                (acc[0] / samples as f64 * SCALE as f64) as i64,
                (acc[1] / samples as f64 * SCALE as f64) as i64,
                (acc[2] / samples as f64 * SCALE as f64) as i64,
            ]);
        }
        columns.push(col);
    }
    assemble(&columns, width as usize, height as usize)
}

#[test]
fn renders_are_deterministic_for_a_seed() {
    // Gray walls, so a path's value depends on its (random) bounce count.
    let gray = Rgb::new(SCALE / 2, SCALE / 2, SCALE / 2);
    let scene = closed_box(Rgb::new(SCALE / 4, SCALE / 4, SCALE / 4), gray);
    let a = render_tiny(&scene, 99, 4, 4, 8);
    let b = render_tiny(&scene, 99, 4, 4, 8);
    assert_eq!(a, b);
    let c = render_tiny(&scene, 100, 4, 4, 8);
    assert!(a != c, "different seeds should perturb a stochastic render");
}

#[test]
fn furnace_box_converges_to_the_ambient_term() {
    // Fully enclosed diffuse cavity with albedo one: every path's weight
    // stays one, so each sample is exactly the ambient term and the mean
    // converges to it.
    let ambient = Rgb::new(SCALE / 2, SCALE / 2, SCALE / 2);
    let scene = closed_box(ambient, Rgb::new(SCALE, SCALE, SCALE));
    let img = render_tiny(&scene, 5, 3, 3, 32);
    for px in img {
        for ch in px {
            let err = (ch - SCALE / 2).abs() as f64 / SCALE as f64;
            assert!(err < 0.02, "channel {} strays from the ambient term", ch);
        }
    }
}

#[test]
fn trace_step_depth_limit_returns_ambient() {
    let ambient = Rgb::new(1000, 2000, 3000);
    let scene = closed_box(ambient, Rgb::new(SCALE, SCALE, SCALE));
    let mut tracer = PathTracer::new(0);
    let ray = Ray::new(Point3::new(0, 0, 0), Vector3::new(0, 0, SCALE));
    // First step is within budget and hits the box.
    match tracer.trace_step(&scene, &ray) {
        TraceStep::Hit(_) => {}
        TraceStep::Finished(_) => panic!("the enclosing box must be hit"),
    }
    // Now the budget is exhausted: ambient, without consulting geometry.
    match tracer.trace_step(&scene, &ray) {
        TraceStep::Finished(c) => assert_eq!(c, ambient),
        TraceStep::Hit(_) => panic!("over budget must finish the path"),
    }
}

#[test]
fn compile_refuses_an_empty_scene() {
    let desc = SceneDesc {
        camera: identity_camera(),
        global_illumination: Rgb::new(0, 0, 0),
        objects: vec![],
    };
    assert!(desc.compile().is_none());
    assert_eq!(default_fov(), 60);
}

#[test]
fn assemble_routes_pixels_row_major() {
    let columns = vec![vec![10, 11, 12], vec![20, 21, 22]];
    let img = assemble(&columns, 2, 3);
    assert_eq!(img, vec![10, 20, 11, 21, 12, 22]);
}

#[test]
fn camera_identity_rotation_points_forward() {
    let cam = identity_camera();
    let ray = cam.get_ray(0, 0);
    assert_eq!(ray.dir.z(), SCALE);
    assert_eq!(ray.dir.x(), 0);
    let tilted = cam.get_ray(s(0.5), 0);
    assert!(tilted.dir.x() > 0);
    let n2 = tilted.dir.x() as f64 * tilted.dir.x() as f64 + tilted.dir.y() as f64
        * tilted.dir.y() as f64 + tilted.dir.z() as f64 * tilted.dir.z() as f64;
    assert!((n2.sqrt() / SCALE as f64 - 1.0).abs() < 1e-4);
}

#[test]
fn cornell_box_preset_builds_and_traces() {
    let scene = rays::presets::by_name(b"cornell_box", identity_camera())
        .expect("the preset exists and compiles");
    assert!(rays::presets::by_name(b"unknown", identity_camera()).is_none());
    // From the origin looking +z, the back of the room is visible.
    let ray = Ray::new(Point3::new(0, s(10.0), s(1.0)), Vector3::new(0, 0, SCALE));
    let hit = scene.objects.sample(&ray).expect("the room encloses the ray");
    assert!(hit.intersection.distance > 0);
    // Looking straight at the diffuse sphere at (4, 4, 10), radius 4.
    let at_sphere = Ray::new(Point3::new(s(4.0), s(4.0), 0), Vector3::new(0, 0, SCALE));
    let hit = scene.objects.sample(&at_sphere).expect("the sphere is in the way");
    assert!((hit.intersection.distance - s(6.0)).abs() <= 8, "distance {}", hit.intersection.distance);
}
