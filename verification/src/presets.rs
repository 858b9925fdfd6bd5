//! Built-in scenes and the builder they are written with.
//!
//! The builder accumulates plain surface descriptions; `build` hands them
//! to the verified scene compiler. The camera is passed in ready-made,
//! since turning a view direction into a rotation matrix is trigonometric
//! work that happens outside the verified core.

use vstd::prelude::*;

use crate::camera::{Camera, camera_wf};
use crate::color::Rgb;
use crate::fixed::SCALE;
use crate::loader::{MaterialDesc, MaterialKindDesc, SceneDesc, SurfaceDesc, surface_desc_wf,
    objects_of_descs};
use crate::scene::{Scene, scene_wf};
use crate::types::Point3;

verus! {

/// A preset palette entry.
#[derive(Clone, Copy, PartialEq, Eq, Structural, Debug)]
pub enum Color {
    Blue,
    Green,
    Red,
    White,
}

/// The linear colour a palette entry stands for.
pub open spec fn color_value(c: Color) -> Rgb {
    match c {
        Color::Blue => Rgb { red: 26214, green: 26214, blue: SCALE },
        Color::Green => Rgb { red: 26214, green: SCALE, blue: 26214 },
        Color::Red => Rgb { red: SCALE, green: 26214, blue: 26214 },
        Color::White => Rgb { red: SCALE, green: SCALE, blue: SCALE },
    }
}

impl Color {
    /// The linear colour this palette entry stands for.
    pub fn value(self) -> (r: Rgb)
        ensures
            r == color_value(self),
    {
        match self {
            Color::Blue => Rgb { red: 26214, green: 26214, blue: SCALE },
            Color::Green => Rgb { red: 26214, green: SCALE, blue: 26214 },
            Color::Red => Rgb { red: SCALE, green: 26214, blue: 26214 },
            Color::White => Rgb { red: SCALE, green: SCALE, blue: SCALE },
        }
    }
}

/// A preset material: diffuse, mirror-smooth metal, or a light.
#[derive(Clone, Copy, PartialEq, Eq, Structural, Debug)]
pub enum Mat {
    Diffuse(Color),
    Specular(Color),
    Light(Color),
}

/// The material description a preset material stands for.
pub open spec fn mat_desc(m: Mat) -> MaterialDesc {
    match m {
        Mat::Diffuse(c) => MaterialDesc { kind: MaterialKindDesc::Diffuse, color: color_value(c) },
        Mat::Specular(c) => MaterialDesc {
            kind: MaterialKindDesc::Specular,
            color: color_value(c),
        },
        Mat::Light(c) => MaterialDesc { kind: MaterialKindDesc::Light, color: color_value(c) },
    }
}

impl Mat {
    /// The material description this preset stands for.
    pub fn desc(self) -> (r: MaterialDesc)
        ensures
            r == mat_desc(self),
    {
        match self {
            Mat::Diffuse(c) => MaterialDesc { kind: MaterialKindDesc::Diffuse, color: c.value() },
            Mat::Specular(c) => MaterialDesc {
                kind: MaterialKindDesc::Specular,
                color: c.value(),
            },
            Mat::Light(c) => MaterialDesc { kind: MaterialKindDesc::Light, color: c.value() },
        }
    }
}

/// A palette colour dimmed to the given fixed-point intensity.
pub open spec fn dimmed(c: Color, intensity: int) -> Rgb {
    Rgb {
        red: crate::fixed::tdiv(color_value(c).red * intensity, SCALE as int) as i64,
        green: crate::fixed::tdiv(color_value(c).green * intensity, SCALE as int) as i64,
        blue: crate::fixed::tdiv(color_value(c).blue * intensity, SCALE as int) as i64,
    }
}

/// Accumulates a scene description, one primitive at a time.
#[derive(Debug)]
pub struct SceneBuilder {
    pub camera: Camera,
    pub global_illumination: Rgb,
    pub objects: Vec<SurfaceDesc>,
}

/// Every accumulated description is well-formed.
pub open spec fn builder_wf(b: SceneBuilder) -> bool {
    &&& camera_wf(b.camera)
    &&& forall|i: int| 0 <= i < b.objects@.len() ==> surface_desc_wf(#[trigger] b.objects@[i])
}

impl SceneBuilder {
    /// Start with the given camera, no ambient light and no objects.
    pub fn new(camera: Camera) -> (r: SceneBuilder)
        requires
            camera_wf(camera),
        ensures
            r.camera == camera,
            r.global_illumination == (Rgb { red: 0, green: 0, blue: 0 }),
            r.objects@ =~= Seq::<SurfaceDesc>::empty(),
            builder_wf(r),
    {
        SceneBuilder {
            camera,
            global_illumination: Rgb::new(0, 0, 0),
            objects: Vec::new(),
        }
    }

    /// Replace the camera.
    pub fn camera(self, camera: Camera) -> (r: SceneBuilder)
        requires
            builder_wf(self),
            camera_wf(camera),
        ensures
            r.camera == camera,
            r.global_illumination == self.global_illumination,
            r.objects@ == self.objects@,
            builder_wf(r),
    {
        SceneBuilder { camera, ..self }
    }

    /// Set the ambient term to a palette colour at the given intensity.
    pub fn global_illumination(self, color: Color, intensity: i64) -> (r: SceneBuilder)
        requires
            builder_wf(self),
            0 <= intensity <= SCALE,
        ensures
            r.camera == self.camera,
            r.global_illumination == dimmed(color, intensity as int),
            r.objects@ == self.objects@,
            builder_wf(r),
    {
        let gi = color.value().scaled(intensity);
        proof {
            crate::fixed::lemma_tdiv_mag(color_value(color).red * intensity, SCALE as int,
                SCALE as int);
            crate::fixed::lemma_tdiv_mag(color_value(color).green * intensity, SCALE as int,
                SCALE as int);
            crate::fixed::lemma_tdiv_mag(color_value(color).blue * intensity, SCALE as int,
                SCALE as int);
            crate::types::lemma_prod_bound(color_value(color).red as int, intensity as int,
                SCALE as int);
            crate::types::lemma_prod_bound(color_value(color).green as int, intensity as int,
                SCALE as int);
            crate::types::lemma_prod_bound(color_value(color).blue as int, intensity as int,
                SCALE as int);
        }
        SceneBuilder { global_illumination: gi, ..self }
    }

    /// Append one described primitive.
    fn object(self, desc: SurfaceDesc) -> (r: SceneBuilder)
        requires
            builder_wf(self),
            surface_desc_wf(desc),
        ensures
            r.camera == self.camera,
            r.global_illumination == self.global_illumination,
            r.objects@ == self.objects@.push(desc),
            builder_wf(r),
    {
        let mut b = self;
        b.objects.push(desc);
        b
    }

    /// Add a triangle.
    pub fn triangle(self, p1: Point3, p2: Point3, p3: Point3, material: Mat) -> (r: SceneBuilder)
        requires
            builder_wf(self),
            crate::types::bounded_p(p1, crate::fixed::COORD_LIMIT as int),
            crate::types::bounded_p(p2, crate::fixed::COORD_LIMIT as int),
            crate::types::bounded_p(p3, crate::fixed::COORD_LIMIT as int),
        ensures
            r.camera == self.camera,
            r.global_illumination == self.global_illumination,
            r.objects@ == self.objects@.push(SurfaceDesc::Tri {
                v0: p1,
                v1: p2,
                v2: p3,
                material: mat_desc(material),
            }),
            builder_wf(r),
    {
        let m = material.desc();
        self.object(SurfaceDesc::Tri { v0: p1, v1: p2, v2: p3, material: m })
    }

    /// Add a quadrilateral (two triangles along its first diagonal).
    pub fn quad(self, p1: Point3, p2: Point3, p3: Point3, p4: Point3, material: Mat) -> (r:
        SceneBuilder)
        requires
            builder_wf(self),
            crate::types::bounded_p(p1, crate::fixed::COORD_LIMIT as int),
            crate::types::bounded_p(p2, crate::fixed::COORD_LIMIT as int),
            crate::types::bounded_p(p3, crate::fixed::COORD_LIMIT as int),
            crate::types::bounded_p(p4, crate::fixed::COORD_LIMIT as int),
        ensures
            r.camera == self.camera,
            r.global_illumination == self.global_illumination,
            r.objects@ == self.objects@.push(SurfaceDesc::Quad {
                v0: p1,
                v1: p2,
                v2: p3,
                v3: p4,
                material: mat_desc(material),
            }),
            builder_wf(r),
    {
        let m = material.desc();
        self.object(SurfaceDesc::Quad { v0: p1, v1: p2, v2: p3, v3: p4, material: m })
    }

    /// Add a sphere.
    pub fn sphere(self, center: Point3, radius: i64, material: Mat) -> (r: SceneBuilder)
        requires
            builder_wf(self),
            crate::types::bounded_p(center, crate::fixed::COORD_LIMIT as int),
            1 <= radius <= crate::fixed::COORD_LIMIT,
        ensures
            r.camera == self.camera,
            r.global_illumination == self.global_illumination,
            r.objects@ == self.objects@.push(SurfaceDesc::Ball {
                center,
                radius,
                material: mat_desc(material),
            }),
            builder_wf(r),
    {
        let m = material.desc();
        self.object(SurfaceDesc::Ball { center, radius, material: m })
    }

    /// Compile the accumulated description.
    pub fn build(self) -> (r: Option<Scene>)
        requires
            builder_wf(self),
        ensures
            match r {
                Some(s) => scene_wf(s) && s.camera == self.camera && s.global_illumination
                    == self.global_illumination && s.objects.objects().to_multiset()
                    == objects_of_descs(self.objects@).to_multiset(),
                None => objects_of_descs(self.objects@).len() == 0 || objects_of_descs(
                    self.objects@).len() > 0x1000_0000,
            },
    {
        let desc = SceneDesc {
            camera: self.camera,
            global_illumination: self.global_illumination,
            objects: self.objects,
        };
        desc.compile()
    }
}

/// A corner of the test room, in whole units.
pub open spec fn cornell_point(x: int, y: int, z: int) -> Point3 {
    Point3 { x: (x * SCALE) as i64, y: (y * SCALE) as i64, z: (z * SCALE) as i64 }
}

/// The descriptions the test room is built from: two spheres and five
/// walls (the ceiling a light), in build order.
pub open spec fn cornell_descs() -> Seq<SurfaceDesc> {
    seq![
        SurfaceDesc::Ball {
            center: cornell_point(-3, 3, 13),
            radius: (3 * SCALE) as i64,
            material: mat_desc(Mat::Specular(Color::White)),
        },
        SurfaceDesc::Ball {
            center: cornell_point(4, 4, 10),
            radius: (4 * SCALE) as i64,
            material: mat_desc(Mat::Diffuse(Color::White)),
        },
        SurfaceDesc::Quad {
            v0: cornell_point(-10, 0, 20),
            v1: cornell_point(-10, 20, 20),
            v2: cornell_point(10, 20, 20),
            v3: cornell_point(10, 0, 20),
            material: mat_desc(Mat::Diffuse(Color::White)),
        },
        SurfaceDesc::Quad {
            v0: cornell_point(-10, 0, 20),
            v1: cornell_point(-10, 20, 20),
            v2: cornell_point(-10, 20, 0),
            v3: cornell_point(-10, 0, 0),
            material: mat_desc(Mat::Diffuse(Color::Red)),
        },
        SurfaceDesc::Quad {
            v0: cornell_point(10, 0, 20),
            v1: cornell_point(10, 20, 20),
            v2: cornell_point(10, 20, 0),
            v3: cornell_point(10, 0, 0),
            material: mat_desc(Mat::Diffuse(Color::Green)),
        },
        SurfaceDesc::Quad {
            v0: cornell_point(-10, 0, 20),
            v1: cornell_point(10, 0, 20),
            v2: cornell_point(10, 0, 0),
            v3: cornell_point(-10, 0, 0),
            material: mat_desc(Mat::Diffuse(Color::White)),
        },
        SurfaceDesc::Quad {
            v0: cornell_point(-10, 20, 20),
            v1: cornell_point(10, 20, 20),
            v2: cornell_point(10, 20, 0),
            v3: cornell_point(-10, 20, 0),
            material: mat_desc(Mat::Light(Color::White)),
        },
    ]
}

/// The classic enclosed test room: two spheres inside a box whose ceiling
/// is a light. The caller supplies the camera (its rotation is computed
/// outside the verified core). The scene holds exactly the objects of
/// `cornell_descs`, dark ambient.
pub fn cornell_box(camera: Camera) -> (r: Option<Scene>)
    requires
        camera_wf(camera),
    ensures
        r matches Some(s) && scene_wf(s) && s.camera == camera && s.global_illumination == (Rgb {
            red: 0,
            green: 0,
            blue: 0,
        }) && s.objects.objects().to_multiset() == objects_of_descs(
            cornell_descs()).to_multiset(),
{
    let xl = -10 * SCALE;
    let xh = 10 * SCALE;
    let yl: i64 = 0;
    let yh = 20 * SCALE;
    let zl: i64 = 0;
    let zh = 20 * SCALE;

    // {back,front}{bottom,top}{left,right} corners.
    let bbl = Point3::new(xl, yl, zh);
    let btl = Point3::new(xl, yh, zh);
    let bbr = Point3::new(xh, yl, zh);
    let btr = Point3::new(xh, yh, zh);
    let fbl = Point3::new(xl, yl, zl);
    let ftl = Point3::new(xl, yh, zl);
    let fbr = Point3::new(xh, yl, zl);
    let ftr = Point3::new(xh, yh, zl);

    let built = SceneBuilder::new(camera)
        .sphere(Point3::new(-3 * SCALE, 3 * SCALE, 13 * SCALE), 3 * SCALE,
            Mat::Specular(Color::White))
        .sphere(Point3::new(4 * SCALE, 4 * SCALE, 10 * SCALE), 4 * SCALE,
            Mat::Diffuse(Color::White))
        .quad(bbl, btl, btr, bbr, Mat::Diffuse(Color::White))
        .quad(bbl, btl, ftl, fbl, Mat::Diffuse(Color::Red))
        .quad(bbr, btr, ftr, fbr, Mat::Diffuse(Color::Green))
        .quad(bbl, bbr, fbr, fbl, Mat::Diffuse(Color::White))
        .quad(btl, btr, ftr, ftl, Mat::Light(Color::White));
    proof {
        assert(built.objects@ =~= cornell_descs());
        lemma_descs_len(built.objects@);
    }
    built.build()
}

/// Nine descriptions, two of them spheres, make sixteen objects: enough
/// for the compiler to accept.
proof fn lemma_descs_len(ds: Seq<SurfaceDesc>)
    requires
        ds.len() <= 16,
    ensures
        objects_of_descs(ds).len() <= 2 * ds.len(),
        ds.len() >= 1 ==> objects_of_descs(ds).len() >= 1,
    decreases ds.len(),
{
    if ds.len() > 0 {
        lemma_descs_len(ds.drop_first());
        match ds[0] {
            SurfaceDesc::Ball { .. } => {
            },
            SurfaceDesc::Tri { .. } => {
            },
            SurfaceDesc::Quad { .. } => {
            },
        }
    }
}

/// The bytes of the test room's name.
pub open spec fn cornell_name() -> Seq<u8> {
    seq![99u8, 111u8, 114u8, 110u8, 101u8, 108u8, 108u8, 95u8, 98u8, 111u8, 120u8]
}

/// Look a preset scene up by name: the test room under its name, nothing
/// under any other.
pub fn by_name(name: &[u8], camera: Camera) -> (r: Option<Scene>)
    requires
        camera_wf(camera),
    ensures
        name@ == cornell_name() ==> (r matches Some(s) && scene_wf(s) && s.camera == camera),
        name@ != cornell_name() ==> r is None,
{
    let hit = name.len() == 11 && name[0] == 99 && name[1] == 111 && name[2] == 114 && name[3]
        == 110 && name[4] == 101 && name[5] == 108 && name[6] == 108 && name[7] == 95 && name[8]
        == 98 && name[9] == 111 && name[10] == 120;
    if hit {
        proof {
            assert(name@ =~= cornell_name());
        }
        cornell_box(camera)
    } else {
        proof {
            if name@ == cornell_name() {
                assert(name@.len() == 11);
                assert(name@[0] == 99 && name@[1] == 111 && name@[2] == 114 && name@[3] == 110
                    && name@[4] == 101 && name@[5] == 108 && name@[6] == 108 && name@[7] == 95
                    && name@[8] == 98 && name@[9] == 111 && name@[10] == 120);
            }
        }
        None
    }
}

} // verus!
