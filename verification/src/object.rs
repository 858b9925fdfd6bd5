//! Scene objects: a primitive paired with its material.

use vstd::prelude::*;

use crate::material::{Material, material_wf};
use crate::ray::{Ray, ray_wf};
use crate::surface::{Intersection, Surface, surface_wf, surface_intersect_spec, surface_box};
use crate::bounds::BoundingBox;

verus! {

/// A hit together with the material of the object that was hit.
#[derive(Clone, Copy, Debug)]
pub struct Collision<'a> {
    pub intersection: Intersection,
    pub material: &'a Material,
}

/// The unit of scene geometry the hierarchy indexes.
#[derive(Clone, Debug)]
pub struct Object {
    pub surface: Surface,
    pub material: Material,
}

pub open spec fn object_wf(o: Object) -> bool {
    surface_wf(o.surface) && material_wf(o.material)
}

/// The object's bounding box is its surface's.
pub open spec fn object_box(o: Object) -> BoundingBox {
    surface_box(o.surface)
}

/// What `collide` reports, with the material carried by value.
pub open spec fn collide_spec(o: Object, r: Ray) -> Option<(Intersection, Material)> {
    match surface_intersect_spec(o.surface, r) {
        Some(i) => Some((i, o.material)),
        None => None,
    }
}

impl Object {
    pub fn new(surface: Surface, material: Material) -> (r: Object)
        ensures
            r.surface == surface,
            r.material == material,
    {
        Object { surface, material }
    }

    /// Test the ray against this object's surface; a hit borrows the
    /// object's material.
    pub fn collide<'a>(&'a self, ray: &Ray) -> (r: Option<Collision<'a>>)
        requires
            object_wf(*self),
            ray_wf(*ray),
        ensures
            match r {
                None => collide_spec(*self, *ray) is None,
                Some(c) => collide_spec(*self, *ray) == Some((c.intersection, *c.material)),
            },
    {
        match self.surface.intersect(ray) {
            Some(intersection) => Some(Collision { intersection, material: &self.material }),
            None => None,
        }
    }
}

} // verus!
