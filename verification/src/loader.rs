//! Compiling plain scene descriptions into renderable scenes.
//!
//! The text formats (YAML at the top level, OBJ/MTL for meshes) are
//! decoded outside the verified core into the plain description values
//! here; turning those into primitives, materials and the object
//! hierarchy is verified. A quadrilateral becomes two triangles sharing
//! its diagonal.

use vstd::prelude::*;

use crate::bvh::objs_wf_seq;
use crate::camera::{Camera, camera_wf};
use crate::color::Rgb;
use crate::fixed::{SCALE, COORD_LIMIT};
use crate::material::{Material, Color, Kind, material_wf};
use crate::object::Object;
use crate::scene::{Scene, scene_wf};
use crate::surface::{Surface, Sphere, Triangle, geometric_normal};
use crate::texture::TextureCoords;
use crate::types::{Point3, bounded_p};

verus! {

/// The field of view assumed when a description leaves it out, in
/// degrees.
pub fn default_fov() -> (r: u32)
    ensures
        r == 60,
{
    60
}

/// A described material: its response kind and a constant colour.
#[derive(Clone, Copy, PartialEq, Eq, Structural, Debug)]
pub enum MaterialKindDesc {
    Diffuse,
    Specular,
    Glossy { index: i64, roughness: i64 },
    Light,
}

#[derive(Clone, Copy, PartialEq, Eq, Structural, Debug)]
pub struct MaterialDesc {
    pub kind: MaterialKindDesc,
    pub color: Rgb,
}

/// A described primitive.
#[derive(Clone, Copy, PartialEq, Eq, Structural, Debug)]
pub enum SurfaceDesc {
    Ball { center: Point3, radius: i64, material: MaterialDesc },
    Tri { v0: Point3, v1: Point3, v2: Point3, material: MaterialDesc },
    Quad { v0: Point3, v1: Point3, v2: Point3, v3: Point3, material: MaterialDesc },
}

/// Every described coordinate is in range; a sphere's radius is positive.
pub open spec fn surface_desc_wf(d: SurfaceDesc) -> bool {
    match d {
        SurfaceDesc::Ball { center, radius, .. } => bounded_p(center, COORD_LIMIT as int) && 1
            <= radius <= COORD_LIMIT,
        SurfaceDesc::Tri { v0, v1, v2, .. } => bounded_p(v0, COORD_LIMIT as int) && bounded_p(v1,
            COORD_LIMIT as int) && bounded_p(v2, COORD_LIMIT as int),
        SurfaceDesc::Quad { v0, v1, v2, v3, .. } => bounded_p(v0, COORD_LIMIT as int)
            && bounded_p(v1, COORD_LIMIT as int) && bounded_p(v2, COORD_LIMIT as int)
            && bounded_p(v3, COORD_LIMIT as int),
    }
}

/// The material a description stands for.
pub open spec fn material_of_desc(d: MaterialDesc) -> Material {
    match d.kind {
        MaterialKindDesc::Diffuse => Material {
            color: Color::Solid(d.color),
            kind: Kind::Ggx { index: SCALE, roughness: SCALE, metallic: false, transparent: false },
        },
        MaterialKindDesc::Specular => Material {
            color: Color::Solid(d.color),
            kind: Kind::Ggx { index: 393216, roughness: 0, metallic: true, transparent: false },
        },
        MaterialKindDesc::Glossy { index, roughness } => Material {
            color: Color::Solid(d.color),
            kind: Kind::Ggx { index, roughness, metallic: false, transparent: false },
        },
        MaterialKindDesc::Light => Material { color: Color::Solid(d.color), kind: Kind::Emissive },
    }
}

/// The triangle over three vertices with geometric normals and no
/// texture.
pub open spec fn plain_triangle(v0: Point3, v1: Point3, v2: Point3) -> Triangle {
    let e1 = v1.minus_spec(v0);
    let e2 = v2.minus_spec(v0);
    Triangle {
        vertex: v0,
        edge1: e1,
        edge2: e2,
        normals: (geometric_normal(e1, e2), geometric_normal(e1, e2), geometric_normal(e1, e2)),
        texture_coords: (TextureCoords { x: 0, y: 0 }, TextureCoords { x: 0, y: 0 },
            TextureCoords { x: 0, y: 0 }),
        orient_by_det: true,
    }
}

/// The objects a description stands for: one, except that a quadrilateral
/// splits into two triangles along its first diagonal.
pub open spec fn objects_of_desc(d: SurfaceDesc) -> Seq<Object> {
    match d {
        SurfaceDesc::Ball { center, radius, material } => seq![
            Object {
                surface: Surface::Ball(Sphere { center, radius }),
                material: material_of_desc(material),
            },
        ],
        SurfaceDesc::Tri { v0, v1, v2, material } => seq![
            Object {
                surface: Surface::Tri(plain_triangle(v0, v1, v2)),
                material: material_of_desc(material),
            },
        ],
        SurfaceDesc::Quad { v0, v1, v2, v3, material } => seq![
            Object {
                surface: Surface::Tri(plain_triangle(v0, v1, v2)),
                material: material_of_desc(material),
            },
            Object {
                surface: Surface::Tri(plain_triangle(v0, v2, v3)),
                material: material_of_desc(material),
            },
        ],
    }
}

/// All objects of a list of descriptions, in order.
pub open spec fn objects_of_descs(ds: Seq<SurfaceDesc>) -> Seq<Object>
    decreases ds.len(),
{
    if ds.len() == 0 {
        Seq::empty()
    } else {
        objects_of_desc(ds[0]) + objects_of_descs(ds.drop_first())
    }
}

proof fn lemma_objects_of_descs_push(ds: Seq<SurfaceDesc>, d: SurfaceDesc)
    ensures
        objects_of_descs(ds.push(d)) == objects_of_descs(ds) + objects_of_desc(d),
    decreases ds.len(),
{
    if ds.len() == 0 {
        assert(ds.push(d)[0] == d);
        assert(ds.push(d).drop_first() =~= Seq::<SurfaceDesc>::empty());
        assert(objects_of_descs(Seq::<SurfaceDesc>::empty()) =~= Seq::<Object>::empty());
        assert(objects_of_descs(ds.push(d)) =~= objects_of_descs(ds) + objects_of_desc(d));
    } else {
        assert(ds.push(d)[0] == ds[0]);
        assert(ds.push(d).drop_first() =~= ds.drop_first().push(d));
        lemma_objects_of_descs_push(ds.drop_first(), d);
        assert(objects_of_desc(ds[0]) + (objects_of_descs(ds.drop_first()) + objects_of_desc(d))
            =~= (objects_of_desc(ds[0]) + objects_of_descs(ds.drop_first())) + objects_of_desc(
            d));
    }
}

/// The described material is well-formed (its colour is constant).
proof fn lemma_desc_material_wf(d: MaterialDesc)
    ensures
        material_wf(material_of_desc(d)),
{
}

/// Build the objects one description stands for.
pub fn load_objects(d: &SurfaceDesc) -> (r: Vec<Object>)
    requires
        surface_desc_wf(*d),
    ensures
        r@ == objects_of_desc(*d),
        objs_wf_seq(r@),
        1 <= r@.len() <= 2,
{
    let mut out: Vec<Object> = Vec::new();
    match d {
        SurfaceDesc::Ball { center, radius, material } => {
            out.push(Object {
                surface: Surface::Ball(Sphere::new(*center, *radius)),
                material: desc_material(material),
            });
        },
        SurfaceDesc::Tri { v0, v1, v2, material } => {
            let tri = Triangle::new(*v0, *v1, *v2, None, None);
            out.push(Object { surface: Surface::Tri(tri), material: desc_material(material) });
        },
        SurfaceDesc::Quad { v0, v1, v2, v3, material } => {
            let t1 = Triangle::new(*v0, *v1, *v2, None, None);
            let t2 = Triangle::new(*v0, *v2, *v3, None, None);
            out.push(Object { surface: Surface::Tri(t1), material: desc_material(material) });
            out.push(Object { surface: Surface::Tri(t2), material: desc_material(material) });
        },
    }
    proof {
        lemma_desc_material_wf(match *d {
            SurfaceDesc::Ball { material, .. } => material,
            SurfaceDesc::Tri { material, .. } => material,
            SurfaceDesc::Quad { material, .. } => material,
        });
        assert(out@ =~= objects_of_desc(*d));
    }
    out
}

/// Build the material a description stands for.
fn desc_material(d: &MaterialDesc) -> (r: Material)
    ensures
        r == material_of_desc(*d),
{
    match d.kind {
        MaterialKindDesc::Diffuse => Material::diffuse(Color::solid(d.color)),
        MaterialKindDesc::Specular => Material::specular(Color::solid(d.color)),
        MaterialKindDesc::Glossy { index, roughness } => Material::glossy(Color::solid(d.color),
            index, roughness),
        MaterialKindDesc::Light => Material::light(Color::solid(d.color)),
    }
}

/// A whole scene description: the (precomputed) camera, the ambient term,
/// and the primitives.
#[derive(Debug)]
pub struct SceneDesc {
    pub camera: Camera,
    pub global_illumination: Rgb,
    pub objects: Vec<SurfaceDesc>,
}

impl SceneDesc {
    /// Compile into a renderable scene: every described primitive becomes
    /// an object of the hierarchy. Refused when the description holds no
    /// primitive at all or more than the hierarchy admits.
    pub fn compile(self) -> (r: Option<Scene>)
        requires
            camera_wf(self.camera),
            forall|i: int| 0 <= i < self.objects@.len() ==> surface_desc_wf(
                #[trigger] self.objects@[i]),
        ensures
            match r {
                Some(s) => {
                    &&& scene_wf(s)
                    &&& s.camera == self.camera
                    &&& s.global_illumination == self.global_illumination
                    &&& s.objects.objects().to_multiset() == objects_of_descs(
                        self.objects@).to_multiset()
                },
                None => objects_of_descs(self.objects@).len() == 0 || objects_of_descs(
                    self.objects@).len() > 0x1000_0000,
            },
    {
        let ghost descs = self.objects@;
        let mut all: Vec<Object> = Vec::new();
        let mut i: usize = 0;
        proof {
            assert(descs.take(0) =~= Seq::<SurfaceDesc>::empty());
            assert(all@ =~= objects_of_descs(descs.take(0)));
        }
        while i < self.objects.len()
            invariant
                0 <= i <= descs.len(),
                descs == self.objects@,
                forall|k: int| 0 <= k < descs.len() ==> surface_desc_wf(#[trigger] descs[k]),
                all@ == objects_of_descs(descs.take(i as int)),
                objs_wf_seq(all@),
                all@.len() <= 2 * i,
            decreases descs.len() - i,
        {
            let mut batch = load_objects(self.objects.get(i).unwrap());
            let ghost before = all@;
            let ghost badd = batch@;
            proof {
                assert(badd.take(0) =~= Seq::<Object>::empty());
                assert(all@ =~= before + badd.take(0));
                assert(batch@ =~= badd.skip(0));
            }
            while batch.len() > 0
                invariant
                    batch@.len() <= badd.len(),
                    all@ == before + badd.take(badd.len() - batch@.len()),
                    batch@ == badd.skip(badd.len() - batch@.len()),
                    objs_wf_seq(badd),
                    objs_wf_seq(all@),
                decreases batch@.len(),
            {
                let ghost done = badd.len() - batch@.len();
                proof {
                    assert(batch@[0] == badd.skip(done)[0]);
                }
                let o = batch.remove(0);
                proof {
                    assert(o == badd[done]);
                    assert(batch@ =~= badd.skip(done).drop_first());
                    assert(badd.skip(done).drop_first() =~= badd.skip(done + 1));
                    assert(badd.take(done + 1) =~= badd.take(done).push(badd[done]));
                }
                all.push(o);
                proof {
                    assert(all@ =~= before + badd.take(done + 1));
                }
            }
            proof {
                assert(badd.take(badd.len() as int) =~= badd);
                assert(descs.take(i + 1) =~= descs.take(i as int).push(descs[i as int]));
                lemma_objects_of_descs_push(descs.take(i as int), descs[i as int]);
            }
            i = i + 1;
        }
        proof {
            assert(descs.take(i as int) =~= descs);
        }
        if all.len() == 0 {
            return None;
        }
        if all.len() > 0x1000_0000 {
            return None;
        }
        let bvh = crate::bvh::BoundingVolumeHierarchy::new(all);
        Some(Scene {
            camera: self.camera,
            global_illumination: self.global_illumination,
            objects: bvh,
        })
    }
}

} // verus!
