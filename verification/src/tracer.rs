//! Per-path state and the tracing step.
//!
//! A path alternates between geometry (deterministic, verified here) and
//! material sampling (stochastic, driven outside): `trace_step` enforces
//! the reflection budget and resolves the closest hit, handing back either
//! a final colour or the hit for the material to continue from. The
//! recursion depth is bounded because the counter grows by one per step
//! and the budget check comes first.

use vstd::prelude::*;

use crate::bvh::scan_best;
use crate::color::Rgb;
use crate::object::Collision;
use crate::ray::{Ray, ray_wf};
use crate::scene::{Scene, scene_wf};

verus! {

/// The outcome of one tracing step: a colour that ends the path, or the
/// closest hit for the material model to continue from.
#[derive(Clone, Copy, Debug)]
pub enum TraceStep<'a> {
    Finished(Rgb),
    Hit(Collision<'a>),
}

/// Per-path state: the configured budget and the steps taken so far.
#[derive(Clone, Copy, PartialEq, Eq, Structural, Debug)]
pub struct PathTracer {
    pub max_reflections: u32,
    pub reflections: u32,
}

impl PathTracer {
    /// Fresh state: no reflections yet.
    pub fn new(max_reflections: u32) -> (r: PathTracer)
        ensures
            r.max_reflections == max_reflections,
            r.reflections == 0,
    {
        PathTracer { max_reflections, reflections: 0 }
    }

    /// One step of a path: over budget, the ambient term ends the path and
    /// nothing is queried; otherwise the counter advances and the closest
    /// hit (exactly the brute-force minimum over every scene object) is
    /// handed back, or the ambient term if everything misses.
    pub fn trace_step<'a>(&mut self, scene: &'a Scene, ray: &Ray) -> (r: TraceStep<'a>)
        requires
            scene_wf(*scene),
            ray_wf(*ray),
            old(self).max_reflections < 0xffff_ffff,
            old(self).reflections <= old(self).max_reflections + 1,
        ensures
            final(self).max_reflections == old(self).max_reflections,
            old(self).reflections > old(self).max_reflections ==> r == TraceStep::Finished(
                scene.global_illumination) && *final(self) == *old(self),
            old(self).reflections <= old(self).max_reflections ==> final(self).reflections
                == old(self).reflections + 1 && (match scan_best(scene.objects.objects(), *ray) {
                None => r == TraceStep::Finished(scene.global_illumination),
                Some(hit) => r matches TraceStep::Hit(c) && c.intersection == hit.0
                    && *c.material == hit.1,
            }),
            final(self).reflections <= final(self).max_reflections + 1,
    {
        if self.reflections > self.max_reflections {
            return TraceStep::Finished(scene.global_illumination);
        }
        self.reflections = self.reflections + 1;
        match scene.objects.sample(ray) {
            Some(collision) => TraceStep::Hit(collision),
            None => TraceStep::Finished(scene.global_illumination),
        }
    }
}

} // verus!
