//! An offline path-tracing renderer core.
//!
//! All geometry is carried in signed fixed-point scalars (see [`fixed`]):
//! an `i64` counts units of `1 / fixed::SCALE`. Working over the integers
//! keeps every intersection test an exact arithmetic statement, which is
//! what lets the bounding-volume hierarchy's closest-hit query be proved
//! equal to a brute-force scan over every object.

pub mod bounds;
pub mod bvh;
pub mod camera;
pub mod color;
pub mod fixed;
pub mod loader;
pub mod material;
pub mod object;
pub mod presets;
pub mod ray;
pub mod render;
pub mod scene;
pub mod surface;
pub mod texture;
pub mod tracer;
pub mod types;
pub mod wavefront;
