//! A scene: camera, ambient radiance, and the object hierarchy.

use vstd::prelude::*;

use crate::bvh::BoundingVolumeHierarchy;
use crate::camera::{Camera, camera_wf};
use crate::color::Rgb;

verus! {

#[derive(Debug)]
pub struct Scene {
    pub camera: Camera,
    pub global_illumination: Rgb,
    pub objects: BoundingVolumeHierarchy,
}

/// The camera is usable and the hierarchy sound.
pub open spec fn scene_wf(s: Scene) -> bool {
    camera_wf(s.camera) && s.objects.wf()
}

} // verus!
