//! The core of a path tracer: boxes and their hierarchy, the search for the
//! nearest hit of a ray, and the walk of a light path.
//!
//! The library holds numbers as places in their total order and leaves all
//! arithmetic on them to its caller. What it decides, it decides on
//! comparisons; what it proves, it proves of every caller.

pub mod bvh;
pub mod hitable;
pub mod integrator;
pub mod material;
pub mod math;
pub mod render;
pub mod rng;
pub mod scalar;
pub mod texture;
pub mod utils;
