//! Colours, textures and material constructors.

use rays::color::Rgb;
use rays::fixed::SCALE;
use rays::material::{ggx_continuation, Color, Continuation, Kind, Material};
use rays::types::Vector3;
use rays::texture::{Texture, TextureCoords};

#[test]
fn color_arithmetic() {
    let a = Rgb::new(SCALE, SCALE / 2, 0);
    let b = Rgb::new(SCALE / 4, SCALE / 4, SCALE / 4);
    let sum = a.plus(b);
    assert_eq!(sum.red, SCALE + SCALE / 4);
    let scaled = a.scaled(SCALE / 2);
    assert_eq!(scaled.red, SCALE / 2);
    assert_eq!(scaled.green, SCALE / 4);
    let m = a.modulate(b);
    assert_eq!(m.red, SCALE / 4);
    let c = Rgb::new(-5, 2 * SCALE, 17).clamped();
    assert_eq!(c.red, 0);
    assert_eq!(c.green, SCALE);
    assert_eq!(c.blue, 17);
}

#[test]
fn texture_nearest_pixel_lookup_wraps() {
    // A 2 x 2 checker: row 0 holds red and green, row 1 blue and white.
    let red = Rgb::new(SCALE, 0, 0);
    let green = Rgb::new(0, SCALE, 0);
    let blue = Rgb::new(0, 0, SCALE);
    let white = Rgb::new(SCALE, SCALE, SCALE);
    let tex = Texture::new(2, 2, vec![red, green, blue, white]);
    // v = 0 flips to (1 - v) * height = 2, which wraps to row 0.
    assert_eq!(tex.sample_at(TextureCoords::new(0, 0)), red);
    assert_eq!(tex.sample_at(TextureCoords::new(SCALE / 2, 0)), green);
    // A quarter of the way up selects row 1.
    assert_eq!(tex.sample_at(TextureCoords::new(0, SCALE / 4)), blue);
    assert_eq!(tex.sample_at(TextureCoords::new(SCALE / 2, SCALE / 4)), white);
    // Coordinates past one wrap around.
    assert_eq!(
        tex.sample_at(TextureCoords::new(SCALE + SCALE / 2, 0)),
        tex.sample_at(TextureCoords::new(SCALE / 2, 0))
    );
    // Negative coordinates clamp to the left column.
    assert_eq!(tex.sample_at(TextureCoords::new(-SCALE, 0)), red);
}

#[test]
fn material_constructors_fix_their_kinds() {
    let c = Color::solid(Rgb::new(SCALE, 0, 0));
    match Material::light(c.clone()).kind {
        Kind::Emissive => {}
        other => panic!("light must be emissive, got {:?}", other),
    }
    match Material::diffuse(c.clone()).kind {
        Kind::Ggx { index, roughness, metallic, transparent } => {
            assert_eq!(index, SCALE);
            assert_eq!(roughness, SCALE);
            assert!(!metallic && !transparent);
        }
        other => panic!("diffuse must be reflective, got {:?}", other),
    }
    match Material::specular(c.clone()).kind {
        Kind::Ggx { index, roughness, metallic, transparent } => {
            assert_eq!(index, SCALE + SCALE / 2);
            assert_eq!(roughness, 0);
            assert!(metallic && !transparent);
        }
        other => panic!("specular must be reflective, got {:?}", other),
    }
    match Material::transparent(c, 3 * SCALE / 2, SCALE / 8).kind {
        Kind::Ggx { transparent, metallic, .. } => {
            assert!(transparent && !metallic);
        }
        other => panic!("expected a transparent kind, got {:?}", other),
    }
    let solid = Color::solid(Rgb::new(1, 2, 3));
    assert_eq!(solid.sample(TextureCoords::new(0, 0)), Rgb::new(1, 2, 3));
}

#[test]
fn ggx_mirror_reflection_is_exact_at_normal_incidence() {
    // A perfectly smooth white metal, hit head-on: Fresnel is one, the
    // reflection bounces straight back with weight one.
    let kind = Kind::Ggx { index: SCALE + SCALE / 2, roughness: 0, metallic: true, transparent: false };
    let white = Rgb::new(SCALE, SCALE, SCALE);
    let n = Vector3::new(0, 0, SCALE);
    let incident = Vector3::new(0, 0, -SCALE);
    match ggx_continuation(kind, white, n, incident, n, 0) {
        Continuation::Specular { out, weight } => {
            assert_eq!(out.z(), SCALE);
            assert_eq!(out.x(), 0);
            assert_eq!(weight, SCALE);
        }
        other => panic!("expected a specular bounce, got {:?}", other),
    }
    // Past the Fresnel draw the metal absorbs.
    match ggx_continuation(kind, white, n, incident, n, SCALE) {
        Continuation::Absorb => {}
        other => panic!("expected absorption, got {:?}", other),
    }
}

#[test]
fn ggx_diffuse_and_refraction_branches() {
    let white = Rgb::new(SCALE, SCALE, SCALE);
    let n = Vector3::new(0, 0, SCALE);
    let incident = Vector3::new(0, 0, -SCALE);
    // A diffuse surface with matched index: Fresnel is zero, so any draw
    // lands in the diffuse branch for the driver to cosine-sample.
    let diffuse = Kind::Ggx { index: SCALE, roughness: SCALE, metallic: false, transparent: false };
    match ggx_continuation(diffuse, white, n, incident, n, 0) {
        Continuation::Diffuse => {}
        other => panic!("expected a diffuse bounce, got {:?}", other),
    }
    // A transparent surface with matched index passes the ray straight
    // through with weight one.
    let glassy = Kind::Ggx { index: SCALE, roughness: 0, metallic: false, transparent: true };
    match ggx_continuation(glassy, white, n, incident, n, SCALE) {
        Continuation::Refract { out, weight } => {
            assert_eq!(out.z(), -SCALE);
            assert_eq!(out.x(), 0);
            assert_eq!(weight, SCALE);
        }
        other => panic!("expected refraction, got {:?}", other),
    }
}
