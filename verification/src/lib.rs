//! A Monte-Carlo path tracer whose geometry and shading pipeline is verified.
//!
//! All scalar arithmetic is carried out in a saturating fixed-point format
//! (`fx::Fx`, 16 fractional bits) so that every numeric step has an exact
//! mathematical contract.  The library covers vector algebra, rays,
//! axis-aligned bounding boxes, sphere intersection, a bounding-volume
//! hierarchy, the material scattering model, a uniform-fog medium and the
//! recursive integrator.  Camera ray generation, scene parsing and image
//! output are left to the surrounding application.

pub mod aabb;
pub mod bvh;
pub mod fx;
pub mod list;
pub mod material;
pub mod ray;
pub mod rng;
pub mod sphere;
pub mod trace;
pub mod types;
pub mod vec3;
pub mod volumetric;

pub use aabb::AABB;
pub use bvh::BVHNode;
pub use fx::Fx;
pub use list::HittableList;
pub use material::{Dielectric, Lambertian, Material, Metal};
pub use ray::Ray;
pub use sphere::Sphere;
pub use trace::ray_color;
pub use types::{HitRecord, ScatterInfo};
pub use vec3::{Color, Vec3};
pub use volumetric::{UniformFog, calculate_beer_lambert_attenuation};
