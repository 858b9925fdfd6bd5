//! Materials: emissive lights and GGX-reflective surfaces.
//!
//! A material's colour is either a constant or a texture lookup; its kind
//! decides how the path tracer continues a path at a hit. The stochastic
//! sampling itself draws random numbers and trigonometry, so it lives with
//! the driver; the data model and the colour lookup are here, verified.

use vstd::prelude::*;

use crate::color::{Rgb, bounded_rgb};
use crate::fixed::{tdiv, iabs, iclamp, imax, isqrt_spec, SCALE};
use crate::texture::{Texture, TextureCoords, texture_wf, texel_x, texel_y};
use crate::types::{Vector3, bounded_v, dot_raw, reflect_spec, refract_spec};

verus! {

/// A surface colour: constant, or sampled from a texture by UV.
#[derive(Clone, Debug)]
pub enum Color {
    Solid(Rgb),
    Image(Texture),
}

/// How the material responds to light.
#[derive(Clone, Copy, PartialEq, Eq, Structural, Debug)]
pub enum Kind {
    Emissive,
    Ggx { index: i64, roughness: i64, metallic: bool, transparent: bool },
}

#[derive(Clone, Debug)]
pub struct Material {
    pub color: Color,
    pub kind: Kind,
}

/// A texture-backed colour carries a well-formed texture.
pub open spec fn color_wf(c: Color) -> bool {
    match c {
        Color::Solid(_) => true,
        Color::Image(t) => texture_wf(t),
    }
}

pub open spec fn material_wf(m: Material) -> bool {
    color_wf(m.color)
}

/// What a colour lookup returns at the given UV coordinates.
pub open spec fn color_sample_spec(c: Color, coords: TextureCoords) -> Rgb {
    match c {
        Color::Solid(rgb) => rgb,
        Color::Image(t) => t.pixels@[texel_x(t, coords.x as int) + texel_y(t, coords.y as int)
            * t.width],
    }
}

impl Color {
    /// A constant colour.
    pub fn solid(color: Rgb) -> (r: Color)
        ensures
            r == Color::Solid(color),
    {
        Color::Solid(color)
    }

    /// A texture-sampled colour.
    pub fn texture(texture: Texture) -> (r: Color)
        requires
            texture_wf(texture),
        ensures
            r == Color::Image(texture),
    {
        Color::Image(texture)
    }

    /// Look the colour up at the given UV coordinates.
    pub fn sample(&self, coords: TextureCoords) -> (r: Rgb)
        requires
            color_wf(*self),
            -0x1_0000_0000 <= coords.x <= 0x1_0000_0000,
            -0x1_0000_0000 <= coords.y <= 0x1_0000_0000,
        ensures
            r == color_sample_spec(*self, coords),
    {
        match self {
            Color::Solid(rgb) => *rgb,
            Color::Image(t) => t.sample_at(coords),
        }
    }
}

impl Material {
    /// An emissive material: hitting it terminates the path with this
    /// colour.
    pub fn light(color: Color) -> (r: Material)
        ensures
            r.color == color,
            r.kind == Kind::Emissive,
    {
        Material { color, kind: Kind::Emissive }
    }

    /// A fully rough dielectric: index 1.0, roughness 1.0.
    pub fn diffuse(color: Color) -> (r: Material)
        ensures
            r.color == color,
            r.kind == (Kind::Ggx {
                index: SCALE,
                roughness: SCALE,
                metallic: false,
                transparent: false,
            }),
    {
        Material::glossy(color, SCALE, SCALE)
    }

    /// A perfectly smooth metal: index 1.5, roughness 0.
    pub fn specular(color: Color) -> (r: Material)
        ensures
            r.color == color,
            r.kind == (Kind::Ggx {
                index: 393216,
                roughness: 0,
                metallic: true,
                transparent: false,
            }),
    {
        Material::metallic(color, 393216, 0)
    }

    /// A non-metallic GGX surface.
    pub fn glossy(color: Color, index: i64, roughness: i64) -> (r: Material)
        ensures
            r.color == color,
            r.kind == (Kind::Ggx { index, roughness, metallic: false, transparent: false }),
    {
        Material { color, kind: Kind::Ggx { index, roughness, metallic: false, transparent: false } }
    }

    /// A metallic GGX surface.
    pub fn metallic(color: Color, index: i64, roughness: i64) -> (r: Material)
        ensures
            r.color == color,
            r.kind == (Kind::Ggx { index, roughness, metallic: true, transparent: false }),
    {
        Material { color, kind: Kind::Ggx { index, roughness, metallic: true, transparent: false } }
    }

    /// A transparent GGX surface.
    pub fn transparent(color: Color, index: i64, roughness: i64) -> (r: Material)
        ensures
            r.color == color,
            r.kind == (Kind::Ggx { index, roughness, metallic: false, transparent: true }),
    {
        Material { color, kind: Kind::Ggx { index, roughness, metallic: false, transparent: true } }
    }
}


// --- The GGX continuation (spec 4.4 steps 2-7). --------------------------
//
// The stochastic parts of the material model — importance-sampling the
// microfacet direction and drawing the Fresnel coin — happen in the
// driver; everything the model then decides and weighs is plain
// fixed-point arithmetic and stands here, verified. Importance weights are
// clamped at 64 to keep the fixed model in range (the floating original
// lets them grow without bound at grazing angles).

/// How a GGX path continues after a hit: a reflected or refracted ray
/// with its importance weight (the Smith geometry term included), an
/// absorbed path (a metal past the Fresnel draw, a failed side test,
/// total internal reflection, or a degenerate denominator), or a diffuse
/// bounce for the driver to cosine-sample and scale by the base colour.
#[derive(Clone, Copy, PartialEq, Eq, Structural, Debug)]
pub enum Continuation {
    Specular { out: Vector3, weight: i64 },
    Refract { out: Vector3, weight: i64 },
    Absorb,
    Diffuse,
}

/// The Fresnel base reflectance (spec 4.4 step 2): the channel average for
/// a metal, the dielectric formula `((1 - eta) / (1 + eta))^2` otherwise.
pub open spec fn f0_spec(kind: Kind, base: Rgb) -> int {
    match kind {
        Kind::Emissive => 0,
        Kind::Ggx { index, metallic, .. } => if metallic {
            tdiv(base.red + base.green + base.blue, 3)
        } else {
            let ratio = tdiv((SCALE - index) * SCALE, SCALE + index);
            tdiv(ratio * ratio, SCALE as int)
        },
    }
}

/// Schlick's approximation of the Fresnel term (step 3):
/// `F0 + (1 - F0) * (1 - |m . i|)^5`, the grazing factor clamped below at
/// zero.
pub open spec fn fresnel_spec(kind: Kind, base: Rgb, microfacet: Vector3, incident: Vector3)
    -> int {
    let mdoti = iabs(tdiv(dot_raw(microfacet, incident), SCALE as int));
    let t = imax(0, SCALE - mdoti);
    let t2 = tdiv(t * t, SCALE as int);
    let t4 = tdiv(t2 * t2, SCALE as int);
    let t5 = tdiv(t4 * t, SCALE as int);
    f0_spec(kind, base) + tdiv((SCALE - f0_spec(kind, base)) * t5, SCALE as int)
}

/// The Smith correlated masking-shadowing term (steps 4 and 5):
/// `2 n.i n.o / (n.i sqrt(a^2 + (1 - a^2) (n.o)^2) + n.o sqrt(...))`,
/// zero on a non-positive denominator, clamped at 64.
pub open spec fn smith_spec(roughness: int, ndi: int, ndo: int) -> int {
    let a2 = tdiv(roughness * roughness, SCALE as int);
    let inner_o = a2 + tdiv((SCALE - a2) * tdiv(ndo * ndo, SCALE as int), SCALE as int);
    let inner_i = a2 + tdiv((SCALE - a2) * tdiv(ndi * ndi, SCALE as int), SCALE as int);
    let denom = tdiv(ndi * isqrt_spec(inner_o * SCALE), SCALE as int) + tdiv(ndo * isqrt_spec(
        inner_i * SCALE), SCALE as int);
    if denom <= 0 {
        0
    } else {
        iclamp(tdiv(2 * tdiv(ndi * ndo, SCALE as int) * SCALE, denom), 0x100_0000)
    }
}

/// What the GGX model decides for a hit, given the sampled microfacet and
/// the Fresnel draw (steps 2-7), mirrored exactly.
pub open spec fn ggx_continuation_spec(kind: Kind, base: Rgb, normal: Vector3,
    incident: Vector3, microfacet: Vector3, draw: int) -> Continuation {
    match kind {
        Kind::Emissive => Continuation::Absorb,
        Kind::Ggx { index, roughness, metallic, transparent } => {
            let mdoti = iabs(tdiv(dot_raw(microfacet, incident), SCALE as int));
            let ndi_signed = tdiv(dot_raw(normal, incident), SCALE as int);
            let ndi = iabs(ndi_signed);
            if draw < fresnel_spec(kind, base, microfacet, incident) {
                let out = reflect_spec(microfacet, incident);
                let mdoto = tdiv(dot_raw(microfacet, out), SCALE as int);
                let ndoto = tdiv(dot_raw(normal, out), SCALE as int);
                if mdoto <= 0 || ndoto <= 0 {
                    Continuation::Absorb
                } else {
                    let mdotn = tdiv(dot_raw(microfacet, normal), SCALE as int);
                    let denom = tdiv(ndi * mdotn, SCALE as int);
                    if denom == 0 {
                        Continuation::Absorb
                    } else {
                        let w_raw = if denom > 0 {
                            tdiv(mdoti * SCALE, denom)
                        } else {
                            -tdiv(mdoti * SCALE, -denom)
                        };
                        let w = iclamp(w_raw, 0x100_0000);
                        let g = smith_spec(roughness as int, ndi, ndoto);
                        Continuation::Specular {
                            out,
                            weight: tdiv(w * g, SCALE as int) as i64,
                        }
                    }
                }
            } else if transparent {
                let pair = if ndi_signed < 0 {
                    (SCALE as int, index as int)
                } else {
                    (index as int, SCALE as int)
                };
                let ni = pair.0;
                let no = pair.1;
                if no == 0 {
                    Continuation::Absorb
                } else {
                    let eta = tdiv(ni * SCALE, no);
                    if eta > 0x100_0000 {
                        Continuation::Absorb
                    } else {
                        match refract_spec(microfacet, incident, eta) {
                            None => Continuation::Absorb,
                            Some(out) => {
                                let mdoto = iabs(tdiv(dot_raw(microfacet, out), SCALE as int));
                                let a1 = tdiv(mdoti * mdoto, SCALE as int);
                                let no2 = tdiv(no * no, SCALE as int);
                                let num = 4 * tdiv(a1 * no2, SCALE as int);
                                let c = tdiv(ni * mdoti, SCALE as int) + tdiv(no * mdoto,
                                    SCALE as int);
                                let den = tdiv(c * c, SCALE as int);
                                if den == 0 {
                                    Continuation::Absorb
                                } else {
                                    let w = iclamp(tdiv(num * SCALE, den), 0x100_0000);
                                    let ndo = iabs(tdiv(dot_raw(normal, out), SCALE as int));
                                    let g = smith_spec(roughness as int, ndi, ndo);
                                    Continuation::Refract {
                                        out,
                                        weight: tdiv(w * g, SCALE as int) as i64,
                                    }
                                }
                            },
                        }
                    }
                }
            } else if metallic {
                Continuation::Absorb
            } else {
                Continuation::Diffuse
            }
        },
    }
}


/// Schlick's Fresnel term, exactly as `fresnel_spec`.
fn fresnel_term(kind: Kind, base: Rgb, microfacet: Vector3, incident: Vector3) -> (r: i64)
    requires
        (kind matches Kind::Ggx { index, .. } ==> 0 <= index <= 0x100_0000),
        bounded_rgb(base, SCALE as int),
        bounded_v(microfacet, 0x8_0000),
        bounded_v(incident, 0x8_0000),
    ensures
        r == fresnel_spec(kind, base, microfacet, incident),
        -0x4_0000_0000 <= r <= 0x4_0000_0000,
{
    proof {
        crate::types::lemma_prod_bound(microfacet.x as int, incident.x as int, 0x8_0000);
        crate::types::lemma_prod_bound(microfacet.y as int, incident.y as int, 0x8_0000);
        crate::types::lemma_prod_bound(microfacet.z as int, incident.z as int, 0x8_0000);
    }
    let d = microfacet.dot(incident);
    proof {
        crate::fixed::lemma_tdiv_mag(dot_raw(microfacet, incident), SCALE as int, 0x80_0000);
    }
    let mdoti = if d >= 0 { d } else { -d };
    let t = if SCALE - mdoti >= 0 { SCALE - mdoti } else { 0 };
    proof {
        crate::types::lemma_prod_bound(t as int, t as int, 0x4_0000);
        crate::fixed::lemma_tdiv_mag(t * t, SCALE as int, 0x4_0000);
    }
    let t2 = crate::fixed::scale_down(t as i128 * t as i128);
    proof {
        crate::types::lemma_prod_bound(t2 as int, t2 as int, 0x4_0000);
        crate::fixed::lemma_tdiv_mag(t2 * t2, SCALE as int, 0x4_0000);
    }
    let t4 = crate::fixed::scale_down(t2 as i128 * t2 as i128);
    proof {
        crate::types::lemma_prod_bound(t4 as int, t as int, 0x4_0000);
        crate::fixed::lemma_tdiv_mag(t4 * t, SCALE as int, 0x4_0000);
    }
    let t5 = crate::fixed::scale_down(t4 as i128 * t as i128);
    let f0: i64 = match kind {
        Kind::Emissive => 0,
        Kind::Ggx { index, metallic, .. } => {
            if metallic {
                crate::fixed::div_trunc(
                    base.red as i128 + base.green as i128 + base.blue as i128, 3) as i64
            } else {
                proof {
                    crate::fixed::lemma_tdiv_mag((SCALE - index) * SCALE, SCALE + index,
                        0x200_0000);
                    assert(-(0x200_0000 * (SCALE + index)) <= (SCALE - index) * SCALE <= 0x200_0000
                        * (SCALE + index)) by (nonlinear_arith)
                        requires
                            0 <= index <= 0x100_0000,
                            SCALE == 262144,
                    ;
                }
                let ratio = crate::fixed::div_trunc((SCALE as i128 - index as i128)
                    * SCALE as i128, SCALE as i128 + index as i128) as i64;
                proof {
                    crate::types::lemma_prod_bound(ratio as int, ratio as int, 0x200_0000);
                    crate::fixed::lemma_tdiv_mag(ratio * ratio, SCALE as int, 0x1_0000_0000);
                }
                crate::fixed::scale_down(ratio as i128 * ratio as i128)
            }
        },
    };
    proof {
        crate::types::lemma_prod_bound2((SCALE - f0) as int, t5 as int, 0x2_0000_0000, 0x4_0000);
        crate::fixed::lemma_tdiv_mag((SCALE - f0) * t5, SCALE as int, 0x2_0000_0000);
    }
    f0 + crate::fixed::scale_down((SCALE as i128 - f0 as i128) * t5 as i128)
}

/// The Smith masking-shadowing term, exactly as `smith_spec`.
fn smith_term(roughness: i64, ndi: i64, ndo: i64) -> (r: i64)
    requires
        0 <= roughness <= SCALE,
        -0x40_0000_0000 <= ndi <= 0x40_0000_0000,
        -0x40_0000_0000 <= ndo <= 0x40_0000_0000,
    ensures
        r == smith_spec(roughness as int, ndi as int, ndo as int),
        -0x100_0000 <= r <= 0x100_0000,
{
    proof {
        crate::types::lemma_prod_bound(roughness as int, roughness as int, 0x4_0000);
        crate::fixed::lemma_tdiv_mag(roughness * roughness, SCALE as int, 0x4_0000);
        crate::fixed::lemma_tdiv_bounds(roughness * roughness, SCALE as int);
        crate::types::lemma_prod_bound(ndo as int, ndo as int, 0x40_0000_0000);
        crate::types::lemma_prod_bound(ndi as int, ndi as int, 0x40_0000_0000);
        assert(roughness * roughness >= 0 && ndo * ndo >= 0 && ndi * ndi >= 0)
            by (nonlinear_arith);
        crate::fixed::lemma_tdiv_mag(ndo * ndo, SCALE as int, 0x400_0000_0000_0000);
        crate::fixed::lemma_tdiv_mag(ndi * ndi, SCALE as int, 0x400_0000_0000_0000);
        crate::fixed::lemma_tdiv_bounds(ndo * ndo, SCALE as int);
        crate::fixed::lemma_tdiv_bounds(ndi * ndi, SCALE as int);
    }
    let a2 = crate::fixed::scale_down(roughness as i128 * roughness as i128);
    let nd2o = crate::fixed::div_trunc(ndo as i128 * ndo as i128, SCALE as i128);
    let nd2i = crate::fixed::div_trunc(ndi as i128 * ndi as i128, SCALE as i128);
    proof {
        crate::types::lemma_prod_bound2((SCALE - a2) as int, nd2o as int, 0x4_0000,
            0x400_0000_0000_0000);
        crate::types::lemma_prod_bound2((SCALE - a2) as int, nd2i as int, 0x4_0000,
            0x400_0000_0000_0000);
        assert((SCALE - a2) * nd2o >= 0 && (SCALE - a2) * nd2i >= 0) by (nonlinear_arith)
            requires
                0 <= a2 <= SCALE,
                nd2o >= 0,
                nd2i >= 0,
        ;
        crate::fixed::lemma_tdiv_bounds((SCALE - a2) * nd2o, SCALE as int);
        crate::fixed::lemma_tdiv_bounds((SCALE - a2) * nd2i, SCALE as int);
        crate::fixed::lemma_tdiv_mag((SCALE - a2) * nd2o, SCALE as int, 0x400_0000_0000_0000);
        crate::fixed::lemma_tdiv_mag((SCALE - a2) * nd2i, SCALE as int, 0x400_0000_0000_0000);
    }
    let inner_o = a2 as i128 + crate::fixed::div_trunc((SCALE - a2) as i128 * nd2o,
        SCALE as i128);
    let inner_i = a2 as i128 + crate::fixed::div_trunc((SCALE - a2) as i128 * nd2i,
        SCALE as i128);
    proof {
        assert(0 <= inner_o * (SCALE as i128) <= 0x2000_0000_0000_0000_0000int)
            by (nonlinear_arith)
            requires
                0 <= inner_o <= 0x800_0000_0000_0000,
                SCALE == 262144,
        ;
        assert(0 <= inner_i * (SCALE as i128) <= 0x2000_0000_0000_0000_0000int)
            by (nonlinear_arith)
            requires
                0 <= inner_i <= 0x800_0000_0000_0000,
                SCALE == 262144,
        ;
        crate::fixed::lemma_isqrt_bounds(inner_o as int * SCALE as int);
        crate::fixed::lemma_isqrt_bounds(inner_i as int * SCALE as int);
        crate::types::lemma_isqrt_result_bound(inner_o as int * SCALE as int, 0x80_0000_0000);
        crate::types::lemma_isqrt_result_bound(inner_i as int * SCALE as int, 0x80_0000_0000);
    }
    let root_o = crate::fixed::isqrt((inner_o * SCALE as i128) as u128) as i128;
    let root_i = crate::fixed::isqrt((inner_i * SCALE as i128) as u128) as i128;
    proof {
        crate::types::lemma_prod_bound2(ndi as int, root_o as int, 0x40_0000_0000,
            0x80_0000_0000);
        crate::types::lemma_prod_bound2(ndo as int, root_i as int, 0x40_0000_0000,
            0x80_0000_0000);
        crate::fixed::lemma_tdiv_bounds(ndi as int * root_o as int, SCALE as int);
        crate::fixed::lemma_tdiv_bounds(ndo as int * root_i as int, SCALE as int);
    }
    let denom = crate::fixed::div_trunc(ndi as i128 * root_o, SCALE as i128)
        + crate::fixed::div_trunc(ndo as i128 * root_i, SCALE as i128);
    if denom <= 0 {
        return 0;
    }
    proof {
        crate::types::lemma_prod_bound(ndi as int, ndo as int, 0x40_0000_0000);
        crate::fixed::lemma_tdiv_mag(ndi as int * ndo as int, SCALE as int, 0x400_0000_0000_0000);
    }
    let prod = crate::fixed::div_trunc(ndi as i128 * ndo as i128, SCALE as i128);
    let q = crate::fixed::div_trunc(2 * prod * SCALE as i128, denom);
    crate::fixed::clamp_cap(q, 0x100_0000)
}


/// Decide how a GGX path continues (spec 4.4 steps 2-7) from the hit data,
/// the sampled microfacet and the Fresnel draw — all in fixed point,
/// matching `ggx_continuation_spec` exactly. The driver draws the
/// randomness, performs any trigonometric sampling, and traces the ray
/// this returns.
pub fn ggx_continuation(kind: Kind, base: Rgb, normal: Vector3, incident: Vector3,
    microfacet: Vector3, fresnel_draw: i64) -> (r: Continuation)
    requires
        kind is Ggx,
        (kind matches Kind::Ggx { index, roughness, .. } ==> 0 <= index <= 0x100_0000 && 0
            <= roughness <= SCALE),
        bounded_rgb(base, SCALE as int),
        bounded_v(normal, 0x8_0000),
        bounded_v(incident, 0x8_0000),
        bounded_v(microfacet, 0x8_0000),
        0 <= fresnel_draw <= SCALE,
    ensures
        r == ggx_continuation_spec(kind, base, normal, incident, microfacet,
            fresnel_draw as int),
        fresnel_draw >= fresnel_spec(kind, base, microfacet, incident) ==> !(r is Specular),
        (r matches Continuation::Specular { out, .. } ==> out == reflect_spec(microfacet,
            incident) && fresnel_draw < fresnel_spec(kind, base, microfacet, incident)),
        (kind matches Kind::Ggx { metallic: true, transparent: false, .. } && fresnel_draw
            >= fresnel_spec(kind, base, microfacet, incident) ==> r is Absorb),
        (kind matches Kind::Ggx { metallic: false, transparent: false, .. } && fresnel_draw
            >= fresnel_spec(kind, base, microfacet, incident) ==> r is Diffuse),
{
    let (index, roughness, metallic, transparent) = match kind {
        Kind::Ggx { index, roughness, metallic, transparent } => (index, roughness, metallic,
            transparent),
        Kind::Emissive => (0, 0, false, false),
    };
    proof {
        crate::types::lemma_prod_bound(microfacet.x as int, incident.x as int, 0x8_0000);
        crate::types::lemma_prod_bound(microfacet.y as int, incident.y as int, 0x8_0000);
        crate::types::lemma_prod_bound(microfacet.z as int, incident.z as int, 0x8_0000);
        crate::types::lemma_prod_bound(normal.x as int, incident.x as int, 0x8_0000);
        crate::types::lemma_prod_bound(normal.y as int, incident.y as int, 0x8_0000);
        crate::types::lemma_prod_bound(normal.z as int, incident.z as int, 0x8_0000);
        crate::fixed::lemma_tdiv_mag(dot_raw(microfacet, incident), SCALE as int, 0x80_0000);
        crate::fixed::lemma_tdiv_mag(dot_raw(normal, incident), SCALE as int, 0x80_0000);
    }
    let md = microfacet.dot(incident);
    let mdoti = if md >= 0 { md } else { -md };
    let ndi_signed = normal.dot(incident);
    let ndi = if ndi_signed >= 0 { ndi_signed } else { -ndi_signed };
    let fr = fresnel_term(kind, base, microfacet, incident);
    if fresnel_draw < fr {
        let out = microfacet.reflect(incident);
        proof {
            crate::types::lemma_prod_bound2(microfacet.x as int, out.x as int, 0x8_0000,
                0x800_0000);
            crate::types::lemma_prod_bound2(microfacet.y as int, out.y as int, 0x8_0000,
                0x800_0000);
            crate::types::lemma_prod_bound2(microfacet.z as int, out.z as int, 0x8_0000,
                0x800_0000);
            crate::types::lemma_prod_bound2(normal.x as int, out.x as int, 0x8_0000, 0x800_0000);
            crate::types::lemma_prod_bound2(normal.y as int, out.y as int, 0x8_0000, 0x800_0000);
            crate::types::lemma_prod_bound2(normal.z as int, out.z as int, 0x8_0000, 0x800_0000);
            crate::fixed::lemma_tdiv_mag(dot_raw(normal, out), SCALE as int, 0x4000_0000);
            crate::types::lemma_prod_bound(microfacet.x as int, normal.x as int, 0x8_0000);
            crate::types::lemma_prod_bound(microfacet.y as int, normal.y as int, 0x8_0000);
            crate::types::lemma_prod_bound(microfacet.z as int, normal.z as int, 0x8_0000);
            crate::fixed::lemma_tdiv_mag(dot_raw(microfacet, normal), SCALE as int, 0x80_0000);
        }
        let mdoto = microfacet.dot(out);
        let ndoto = normal.dot(out);
        if mdoto <= 0 || ndoto <= 0 {
            return Continuation::Absorb;
        }
        let mdotn = microfacet.dot(normal);
        proof {
            crate::types::lemma_prod_bound2(ndi as int, mdotn as int, 0x80_0000, 0x80_0000);
            crate::fixed::lemma_tdiv_mag(ndi * mdotn, SCALE as int, 0x4000_0000);
        }
        let denom = crate::fixed::scale_down(ndi as i128 * mdotn as i128);
        if denom == 0 {
            return Continuation::Absorb;
        }
        proof {
            crate::types::lemma_prod_bound2(mdoti as int, SCALE as int, 0x80_0000, 0x4_0000);
        }
        let w_raw: i128 = if denom > 0 {
            crate::fixed::div_trunc(mdoti as i128 * SCALE as i128, denom as i128)
        } else {
            -crate::fixed::div_trunc(mdoti as i128 * SCALE as i128, -(denom as i128))
        };
        let w = crate::fixed::clamp_cap(w_raw, 0x100_0000);
        let g = smith_term(roughness, ndi, ndoto);
        proof {
            crate::types::lemma_prod_bound(w as int, g as int, 0x100_0000);
            crate::fixed::lemma_tdiv_mag(w * g, SCALE as int, 0x4_0000_0000_0000);
        }
        let weight = crate::fixed::scale_down(w as i128 * g as i128);
        Continuation::Specular { out, weight }
    } else if transparent {
        let (ni, no): (i64, i64) = if ndi_signed < 0 {
            (SCALE, index)
        } else {
            (index, SCALE)
        };
        if no == 0 {
            return Continuation::Absorb;
        }
        proof {
            crate::types::lemma_prod_bound2(ni as int, SCALE as int, 0x100_0000, 0x4_0000);
            crate::fixed::lemma_tdiv_bounds(ni * SCALE, no as int);
        }
        let eta128 = crate::fixed::div_trunc(ni as i128 * SCALE as i128, no as i128);
        if eta128 > 0x100_0000 {
            return Continuation::Absorb;
        }
        let eta = eta128 as i64;
        match microfacet.refract(incident, eta) {
            None => Continuation::Absorb,
            Some(out) => {
                proof {
                    crate::types::lemma_prod_bound2(microfacet.x as int, out.x as int, 0x8_0000,
                        0x4_0000_0000);
                    crate::types::lemma_prod_bound2(microfacet.y as int, out.y as int, 0x8_0000,
                        0x4_0000_0000);
                    crate::types::lemma_prod_bound2(microfacet.z as int, out.z as int, 0x8_0000,
                        0x4_0000_0000);
                    crate::types::lemma_prod_bound2(normal.x as int, out.x as int, 0x8_0000,
                        0x4_0000_0000);
                    crate::types::lemma_prod_bound2(normal.y as int, out.y as int, 0x8_0000,
                        0x4_0000_0000);
                    crate::types::lemma_prod_bound2(normal.z as int, out.z as int, 0x8_0000,
                        0x4_0000_0000);
                    crate::fixed::lemma_tdiv_mag(dot_raw(microfacet, out), SCALE as int,
                        0x20_0000_0000);
                    crate::fixed::lemma_tdiv_mag(dot_raw(normal, out), SCALE as int,
                        0x20_0000_0000);
                }
                let mo = microfacet.dot(out);
                let mdoto = if mo >= 0 { mo } else { -mo };
                proof {
                    crate::types::lemma_prod_bound2(mdoti as int, mdoto as int, 0x80_0000,
                        0x20_0000_0000);
                    crate::fixed::lemma_tdiv_mag(mdoti * mdoto, SCALE as int, 0x400_0000_0000);
                    crate::types::lemma_prod_bound(no as int, no as int, 0x100_0000);
                    crate::fixed::lemma_tdiv_mag(no * no, SCALE as int, 0x4000_0000);
                }
                let a1 = crate::fixed::scale_down(mdoti as i128 * mdoto as i128);
                let no2 = crate::fixed::scale_down(no as i128 * no as i128);
                proof {
                    crate::types::lemma_prod_bound2(a1 as int, no2 as int, 0x400_0000_0000,
                        0x4000_0000);
                    crate::fixed::lemma_tdiv_mag(a1 * no2, SCALE as int, 0x40_0000_0000_0000);
                    crate::types::lemma_prod_bound2(ni as int, mdoti as int, 0x100_0000,
                        0x80_0000);
                    crate::types::lemma_prod_bound2(no as int, mdoto as int, 0x100_0000,
                        0x20_0000_0000);
                    crate::fixed::lemma_tdiv_mag(ni * mdoti, SCALE as int, 0x2000_0000);
                    crate::fixed::lemma_tdiv_mag(no * mdoto, SCALE as int, 0x800_0000_0000);
                }
                let num: i128 = 4 * crate::fixed::div_trunc(a1 as i128 * no2 as i128,
                    SCALE as i128);
                let c = crate::fixed::scale_down(ni as i128 * mdoti as i128)
                    + crate::fixed::scale_down(no as i128 * mdoto as i128);
                proof {
                    crate::types::lemma_prod_bound(c as int, c as int, 0x1000_0000_0000);
                    crate::fixed::lemma_tdiv_bounds(c * c, SCALE as int);
                    assert(c * c >= 0) by (nonlinear_arith);
                }
                let den = crate::fixed::div_trunc(c as i128 * c as i128, SCALE as i128);
                if den == 0 {
                    return Continuation::Absorb;
                }
                let w = crate::fixed::clamp_cap(crate::fixed::div_trunc(num * SCALE as i128,
                    den), 0x100_0000);
                let ndo_s = normal.dot(out);
                let ndo = if ndo_s >= 0 { ndo_s } else { -ndo_s };
                let g = smith_term(roughness, ndi, ndo);
                proof {
                    crate::types::lemma_prod_bound(w as int, g as int, 0x100_0000);
                    crate::fixed::lemma_tdiv_mag(w * g, SCALE as int, 0x4_0000_0000_0000);
                }
                let weight = crate::fixed::scale_down(w as i128 * g as i128);
                Continuation::Refract { out, weight }
            },
        }
    } else if metallic {
        Continuation::Absorb
    } else {
        Continuation::Diffuse
    }
}

} // verus!
