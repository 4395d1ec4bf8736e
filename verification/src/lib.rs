//! An offline path-tracing renderer over fixed-point arithmetic.
//!
//! Scalars are signed fixed-point numbers: an `i128` holding `SCALE` times the
//! real value. Geometry (spheres, triangles, meshes), the recursive
//! light-transport integrator, the camera model and the column-sliced renderer
//! are all written over this representation, so every stage of the pipeline
//! carries a contract that pins its result down exactly.
pub mod camera;
pub mod fixed;
pub mod hit;
pub mod integrator;
pub mod math;
pub mod model;
pub mod prim;
pub mod render;
pub mod rng;
pub mod scan;
pub mod scene;
