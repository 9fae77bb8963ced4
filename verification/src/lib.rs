//! A verified stochastic path-tracing core: fixed-point vector and ray
//! arithmetic, sphere intersection, the three canonical surface
//! materials, and a tiled camera renderer.
pub mod color;
pub mod fixed;
pub mod hittable;
pub mod hittable_list;
pub mod interval;
pub mod camera;
pub mod material;
pub mod ray;
pub mod sampler;
pub mod sphere;
pub mod vec3;
