//! A small stochastic ray tracer over a fixed-point coordinate domain.
//!
//! Geometry, colors and ray parameters are carried as `i64` values scaled by
//! `fixed::FP_ONE`; every arithmetic step is specified exactly over the
//! mathematical integers. The modules follow the light path: `camera` makes
//! primary rays, `shapes` intersects them with the scene, `material`
//! scatters them, and `render` runs the bounded light-transport recurrence
//! and the per-pixel sampling loop.

pub mod camera;
pub mod fixed;
pub mod material;
pub mod random;
pub mod ray;
pub mod render;
pub mod shapes;
pub mod vec3;
